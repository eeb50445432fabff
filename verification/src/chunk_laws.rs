//! What holds of the chunks of every document: their size, what they hold
//! of the document, and where their overlaps come from.
use crate::chunker::{
    all_section_chunks, at_word_start, document_chunks, finish, join, line_break, make_room, merge_small, merges,
    overlap_close, overlap_open, overlap_start, overlap_text, pack_lines, pack_paragraphs,
    paragraph_break, paragraphs, raw_chunks, scan_line, scan_lines, section_chunks, sections,
    without_blank, ChunkConfig, Packing, MIN_OVERLAP_CHARACTERS,
};
use crate::text::{
    concat, content, first_index, is_blank, is_whitespace, lemma_concat_add, lemma_concat_one,
    lemma_concat_push, lemma_content_add, lemma_content_blank, lemma_content_lines,
    lemma_content_nonempty, lemma_content_split_breaks, lemma_content_trim, lemma_first_index,
    lemma_lines_hold_no_line_feed, lemma_trim, lemma_trimmed_len_is, lemma_trimmed_nonempty,
    lines, split_breaks, trim, trim_end, CharClass,
};
use vstd::prelude::*;

verus! {

/// A chunk keeps to the bound `max` when it has at most `max` characters, or
/// is a single line, which is never cut.
pub open spec fn within_bound(chunk: Seq<char>, max: int) -> bool {
    chunk.len() <= max || !chunk.contains('\n')
}

/// Whether every chunk keeps to the bound.
pub open spec fn all_within_bound(chunks: Seq<Seq<char>>, max: int) -> bool {
    forall|i: int| 0 <= i < chunks.len() ==> within_bound(#[trigger] chunks[i], max)
}

/// Whether `tail` stands at the end of `s`.
pub open spec fn is_suffix(tail: Seq<char>, s: Seq<char>) -> bool {
    tail.len() <= s.len() && s.skip(s.len() - tail.len()) == tail
}

proof fn lemma_join_content(current: Seq<char>, sep: Seq<char>, piece: Seq<char>)
    requires
        is_blank(sep),
    ensures
        content(join(current, sep, piece)) == content(current) + content(piece),
{
    if current.len() > 0 {
        lemma_content_add(current + sep, piece);
        lemma_content_add(current, sep);
        lemma_content_blank(sep);
        assert(content(current) + Seq::<char>::empty() =~= content(current));
    } else {
        assert(content(current) =~= Seq::<char>::empty());
        assert(Seq::<char>::empty() + content(piece) =~= content(piece));
    }
}

proof fn lemma_make_room(st: Packing, piece_len: int, sep: int, max: int)
    requires
        all_within_bound(st.done, max),
        within_bound(st.current, max),
    ensures
        all_within_bound(make_room(st, piece_len, sep, max).done, max),
        within_bound(make_room(st, piece_len, sep, max).current, max),
        content(concat(make_room(st, piece_len, sep, max).done)) + content(
            make_room(st, piece_len, sep, max).current,
        ) == content(concat(st.done)) + content(st.current),
{
    if st.current.len() > 0 && st.current.len() + piece_len + sep > max {
        lemma_concat_push(st.done, st.current);
        lemma_content_add(concat(st.done), st.current);
        assert(content(Seq::<char>::empty()) =~= Seq::<char>::empty());
        assert(content(concat(st.done)) + content(st.current) + Seq::<char>::empty() =~= content(
            concat(st.done),
        ) + content(st.current));
    }
}

proof fn lemma_pack_lines(ls: Seq<Seq<char>>, max: int)
    requires
        forall|i: int| 0 <= i < ls.len() ==> !(#[trigger] ls[i]).contains('\n'),
    ensures
        all_within_bound(pack_lines(ls, max).done, max),
        within_bound(pack_lines(ls, max).current, max),
        content(concat(pack_lines(ls, max).done)) + content(pack_lines(ls, max).current)
            == content(concat(ls)),
    decreases ls.len(),
{
    if ls.len() == 0 {
        assert(content(Seq::<char>::empty()) + content(Seq::<char>::empty()) =~= Seq::<
            char,
        >::empty());
    } else {
        let before = ls.drop_last();
        let line = ls.last();
        assert forall|i: int| 0 <= i < before.len() implies !(#[trigger] before[i]).contains(
            '\n',
        ) by {
            assert(before[i] == ls[i]);
        }
        lemma_pack_lines(before, max);
        let st = pack_lines(before, max);
        lemma_make_room(st, line.len() as int, 1, max);
        let r = make_room(st, line.len() as int, 1, max);
        assert(is_blank(line_break()));
        lemma_join_content(r.current, line_break(), line);
        lemma_content_add(concat(before), line);
        let cd = content(concat(r.done));
        assert(cd + (content(r.current) + content(line)) =~= (cd + content(r.current)) + content(
            line,
        ));
        assert(!ls[ls.len() - 1].contains('\n'));
    }
}

proof fn lemma_pack_paragraphs(paras: Seq<Seq<char>>, max: int)
    ensures
        all_within_bound(pack_paragraphs(paras, max).done, max),
        within_bound(pack_paragraphs(paras, max).current, max),
        content(concat(pack_paragraphs(paras, max).done)) + content(
            pack_paragraphs(paras, max).current,
        ) == content(concat(paras)),
    decreases paras.len(),
{
    if paras.len() == 0 {
        assert(content(Seq::<char>::empty()) + content(Seq::<char>::empty()) =~= Seq::<
            char,
        >::empty());
    } else {
        let before = paras.drop_last();
        let para = paras.last();
        lemma_pack_paragraphs(before, max);
        let st = pack_paragraphs(before, max);
        lemma_make_room(st, para.len() as int, 2, max);
        let r = make_room(st, para.len() as int, 2, max);
        lemma_content_add(concat(before), para);
        let cd = content(concat(r.done));
        if para.len() > max {
            // The open chunk was closed: with the paragraph it is longer than `max`.
            assert(r.current.len() == 0);
            assert(content(r.current) =~= Seq::<char>::empty());
            assert(cd + Seq::<char>::empty() =~= cd);
            let inner = pack_lines(lines(para), max);
            lemma_lines_hold_no_line_feed(para);
            lemma_pack_lines(lines(para), max);
            lemma_content_lines(para);
            lemma_concat_add(r.done, inner.done);
            lemma_content_add(concat(r.done), concat(inner.done));
            assert((cd + content(concat(inner.done))) + content(inner.current) =~= cd + (content(
                concat(inner.done),
            ) + content(inner.current)));
            assert(all_within_bound(r.done + inner.done, max)) by {
                assert forall|i: int| 0 <= i < (r.done + inner.done).len() implies within_bound(
                    #[trigger] (r.done + inner.done)[i],
                    max,
                ) by {
                    if i < r.done.len() {
                        assert((r.done + inner.done)[i] == r.done[i]);
                    } else {
                        assert((r.done + inner.done)[i] == inner.done[i - r.done.len()]);
                    }
                }
            }
        } else {
            assert(is_blank(paragraph_break()));
            lemma_join_content(r.current, paragraph_break(), para);
            assert(cd + (content(r.current) + content(para)) =~= (cd + content(r.current))
                + content(para));
        }
    }
}

proof fn lemma_finish(st: Packing, max: int)
    requires
        all_within_bound(st.done, max),
        within_bound(st.current, max),
    ensures
        all_within_bound(finish(st), max),
        content(concat(finish(st))) == content(concat(st.done)) + content(st.current),
{
    if st.current.len() > 0 {
        lemma_concat_push(st.done, st.current);
        lemma_content_add(concat(st.done), st.current);
    } else {
        assert(content(st.current) =~= Seq::<char>::empty());
        assert(content(concat(st.done)) + Seq::<char>::empty() =~= content(concat(st.done)));
    }
}

proof fn lemma_merge_small(chunks: Seq<Seq<char>>, min: int, max: int)
    requires
        all_within_bound(chunks, max),
    ensures
        all_within_bound(merge_small(chunks, min, max), max),
        content(concat(merge_small(chunks, min, max))) == content(concat(chunks)),
    decreases chunks.len(),
{
    if chunks.len() > 0 {
        let before = chunks.drop_last();
        let chunk = chunks.last();
        assert(all_within_bound(before, max)) by {
            assert forall|i: int| 0 <= i < before.len() implies within_bound(
                #[trigger] before[i],
                max,
            ) by {
                assert(before[i] == chunks[i]);
            }
        }
        lemma_merge_small(before, min, max);
        let merged = merge_small(before, min, max);
        lemma_content_add(concat(before), chunk);
        assert(within_bound(chunks[chunks.len() - 1], max));
        if merged.len() > 0 && merges(merged.last(), chunk, min, max) {
            let joined = merged.last() + paragraph_break() + chunk;
            let kept = merged.drop_last();
            lemma_concat_push(kept, joined);
            lemma_concat_push(kept, merged.last());
            assert(kept.push(merged.last()) =~= merged);
            assert(is_blank(paragraph_break()));
            lemma_content_blank(paragraph_break());
            lemma_content_add(merged.last() + paragraph_break(), chunk);
            lemma_content_add(merged.last(), paragraph_break());
            assert(content(merged.last()) + Seq::<char>::empty() =~= content(merged.last()));
            lemma_content_add(concat(kept), joined);
            lemma_content_add(concat(kept), merged.last());
            let ck = content(concat(kept));
            assert(ck + (content(merged.last()) + content(chunk)) =~= (ck + content(
                merged.last(),
            )) + content(chunk));
            assert(all_within_bound(kept.push(joined), max)) by {
                assert forall|i: int| 0 <= i < kept.push(joined).len() implies within_bound(
                    #[trigger] kept.push(joined)[i],
                    max,
                ) by {
                    if i < kept.len() {
                        assert(kept.push(joined)[i] == merged[i]);
                    }
                }
            }
        } else {
            lemma_concat_push(merged, chunk);
            lemma_content_add(concat(merged), chunk);
        }
    }
}

proof fn lemma_section_chunks(section: Seq<char>, min: int, max: int)
    ensures
        all_within_bound(section_chunks(section, min, max), max),
        content(concat(section_chunks(section, min, max))) == content(section),
{
    if section.len() <= max {
        lemma_concat_one(section);
    } else {
        let paras = paragraphs(section);
        lemma_pack_paragraphs(paras, max);
        let st = pack_paragraphs(paras, max);
        lemma_finish(st, max);
        lemma_merge_small(finish(st), min, max);
        lemma_trimmed_nonempty(split_breaks(section));
        lemma_content_split_breaks(section);
    }
}

proof fn lemma_all_section_chunks(secs: Seq<Seq<char>>, min: int, max: int)
    ensures
        all_within_bound(all_section_chunks(secs, min, max), max),
        content(concat(all_section_chunks(secs, min, max))) == content(concat(secs)),
    decreases secs.len(),
{
    if secs.len() > 0 {
        let before = all_section_chunks(secs.drop_last(), min, max);
        let more = section_chunks(secs.last(), min, max);
        lemma_all_section_chunks(secs.drop_last(), min, max);
        lemma_section_chunks(secs.last(), min, max);
        lemma_concat_add(before, more);
        lemma_content_add(concat(before), concat(more));
        lemma_content_add(concat(secs.drop_last()), secs.last());
        assert forall|i: int| 0 <= i < (before + more).len() implies within_bound(
            #[trigger] (before + more)[i],
            max,
        ) by {
            if i < before.len() {
                assert((before + more)[i] == before[i]);
            } else {
                assert((before + more)[i] == more[i - before.len()]);
            }
        }
    }
}

proof fn lemma_without_blank(chunks: Seq<Seq<char>>, max: int)
    requires
        all_within_bound(chunks, max),
    ensures
        all_within_bound(without_blank(chunks), max),
        content(concat(without_blank(chunks))) == content(concat(chunks)),
        forall|i: int|
            0 <= i < without_blank(chunks).len() ==> !is_blank(#[trigger] without_blank(chunks)[i]),
    decreases chunks.len(),
{
    if chunks.len() > 0 {
        let before = chunks.drop_last();
        let chunk = chunks.last();
        assert(all_within_bound(before, max)) by {
            assert forall|i: int| 0 <= i < before.len() implies within_bound(
                #[trigger] before[i],
                max,
            ) by {
                assert(before[i] == chunks[i]);
            }
        }
        lemma_without_blank(before, max);
        lemma_content_add(concat(before), chunk);
        assert(within_bound(chunks[chunks.len() - 1], max));
        if is_blank(chunk) {
            lemma_content_blank(chunk);
            assert(content(concat(before)) + Seq::<char>::empty() =~= content(concat(before)));
        } else {
            lemma_concat_push(without_blank(before), chunk);
            lemma_content_add(concat(without_blank(before)), chunk);
        }
    }
}

proof fn lemma_scan_lines(ls: Seq<Seq<char>>)
    ensures
        content(concat(scan_lines(ls).done)) + content(scan_lines(ls).current) == content(
            concat(ls),
        ),
    decreases ls.len(),
{
    if ls.len() == 0 {
        assert(content(Seq::<char>::empty()) + content(Seq::<char>::empty()) =~= Seq::<
            char,
        >::empty());
    } else {
        let st = scan_lines(ls.drop_last());
        let line = ls.last();
        lemma_scan_lines(ls.drop_last());
        lemma_content_add(concat(ls.drop_last()), line);
        let fed = line.push('\n');
        assert(fed =~= line + seq!['\n']);
        assert(is_blank(seq!['\n']));
        lemma_content_add(line, seq!['\n']);
        lemma_content_blank(seq!['\n']);
        assert(content(line) + Seq::<char>::empty() =~= content(line));
        let next = scan_line(st, line);
        let cd = content(concat(st.done));
        if next.done.len() > st.done.len() {
            lemma_concat_push(st.done, trim(st.current));
            lemma_content_add(concat(st.done), trim(st.current));
            lemma_content_trim(st.current);
        } else {
            lemma_content_add(st.current, fed);
            assert(cd + (content(st.current) + content(line)) =~= (cd + content(st.current))
                + content(line));
        }
    }
}

proof fn lemma_sections(text: Seq<char>)
    ensures
        content(concat(sections(text))) == content(text),
{
    let st = scan_lines(lines(text));
    lemma_scan_lines(lines(text));
    lemma_content_lines(text);
    if is_blank(st.current) {
        lemma_content_blank(st.current);
        assert(content(concat(st.done)) + Seq::<char>::empty() =~= content(concat(st.done)));
    } else {
        lemma_concat_push(st.done, trim(st.current));
        lemma_content_add(concat(st.done), trim(st.current));
        lemma_content_trim(st.current);
    }
}

/// No chunk of several lines is longer than the configured maximum: before
/// overlaps are added, every chunk of every document either has at most
/// `max_characters` characters or is one single line, kept whole.
pub proof fn lemma_chunks_within_bound(text: Seq<char>, config: ChunkConfig)
    ensures
        all_within_bound(raw_chunks(text, config), config.max_characters as int),
        forall|i: int|
            0 <= i < raw_chunks(text, config).len() ==> !is_blank(
                #[trigger] raw_chunks(text, config)[i],
            ),
{
    let min = config.min_characters as int;
    let max = config.max_characters as int;
    lemma_all_section_chunks(sections(text), min, max);
    lemma_without_blank(all_section_chunks(sections(text), min, max), max);
}

/// The chunks hold the document: read one after the other, without the
/// overlaps, they hold every character of the text that is no whitespace,
/// once each and in the order of the text, and no other such character.
pub proof fn lemma_chunks_hold_content(text: Seq<char>, config: ChunkConfig)
    ensures
        content(concat(raw_chunks(text, config))) == content(text),
{
    let min = config.min_characters as int;
    let max = config.max_characters as int;
    lemma_all_section_chunks(sections(text), min, max);
    lemma_without_blank(all_section_chunks(sections(text), min, max), max);
    lemma_sections(text);
}

/// A document has no chunk exactly when it is blank.
pub proof fn lemma_no_chunks_iff_blank(text: Seq<char>, config: ChunkConfig)
    ensures
        document_chunks(text, config).len() == 0 <==> is_blank(text),
{
    if !is_blank(text) {
        lemma_chunks_hold_content(text, config);
        lemma_content_nonempty(text);
        if raw_chunks(text, config).len() == 0 {
            assert(concat(raw_chunks(text, config)) =~= Seq::<char>::empty());
            assert(content(Seq::<char>::empty()) =~= Seq::<char>::empty());
        }
    }
}

/// Where an overlap comes from: the overlap taken from a chunk, unless it is
/// empty, stands at the end of that chunk's text without its trailing
/// whitespace, has at most `overlap` characters, begins and ends with a
/// character that is no whitespace, and begins where a word can begin: at
/// the beginning of the chunk or after a whitespace character. It never
/// begins in the middle of a word. A chunk that does not end in whitespace
/// is its own text without trailing whitespace, so that the overlap stands
/// at the end of the chunk itself.
pub proof fn lemma_overlap_source(prev: Seq<char>, overlap: int)
    requires
        0 <= overlap,
    ensures
        overlap_text(prev, overlap).len() <= overlap,
        overlap_text(prev, overlap).len() > 0 ==> {
            &&& is_suffix(overlap_text(prev, overlap), trim_end(prev))
            &&& !is_whitespace(overlap_text(prev, overlap).first())
            &&& !is_whitespace(overlap_text(prev, overlap).last())
            &&& at_word_start(
                trim_end(prev),
                trim_end(prev).len() - overlap_text(prev, overlap).len(),
            )
            &&& at_word_start(prev, trim_end(prev).len() - overlap_text(prev, overlap).len())
        },
        0 <= overlap_start(prev, overlap) <= prev.len(),
        prev.len() - overlap <= overlap_start(prev, overlap),
        overlap_start(prev, overlap) == prev.len() || at_word_start(
            prev,
            overlap_start(prev, overlap),
        ),
        prev.len() == 0 || !is_whitespace(prev.last()) ==> trim_end(prev) == prev,
{
    if prev.len() == 0 || !is_whitespace(prev.last()) {
        lemma_trimmed_len_is(prev, prev.len() as int);
        assert(trim_end(prev) =~= prev);
    }
    let start: int = if prev.len() > overlap {
        prev.len() - overlap
    } else {
        0
    };
    let window = prev.skip(start);
    lemma_first_index(window, CharClass::Whitespace);
    let p = start + first_index(window, CharClass::Whitespace);
    let k = overlap_start(prev, overlap);
    if p < prev.len() {
        assert(window[p - start] == prev[p]);
    }
    let x = prev.skip(k);
    lemma_trim(x);
    lemma_first_index(x, CharClass::NonWhitespace);
    let a = first_index(x, CharClass::NonWhitespace);
    let o = trim(x);
    let n = o.len() as int;
    if n > 0 {
        assert(o.last() == x[a + n - 1]);
        assert(x[a + n - 1] == prev[k + a + n - 1]);
        assert forall|j: int| k + a + n <= j < prev.len() implies is_whitespace(
            #[trigger] prev[j],
        ) by {
            assert(x[j - k] == prev[j]);
        }
        lemma_trimmed_len_is(prev, k + a + n);
        let t = trim_end(prev);
        assert(t.skip(t.len() - n) =~= o);
        // The overlap begins at the place `k + a` of the chunk.
        if a > 0 {
            assert(x[a - 1] == prev[k + a - 1]);
            assert(!CharClass::NonWhitespace.holds(x[a - 1]));
            assert(t[k + a - 1] == prev[k + a - 1]);
        } else if k > 0 {
            assert(t[k - 1] == prev[k - 1]);
        }
    }
}

/// What a chunk looks like once overlaps are added: the chunks of a document
/// that is not blank are as many as before; the first one is unchanged; each
/// other one is either unchanged or opens with `...`, a line feed, the
/// overlap taken from the chunk before it, a line feed, `---` and a line
/// feed, and such an overlap has at least `MIN_OVERLAP_CHARACTERS`
/// characters and at most `overlap_characters`, stands at the end of the
/// chunk before it, and begins where a word can begin; so no chunk grows by
/// more than `overlap_characters` and the nine characters around the
/// overlap.
pub proof fn lemma_overlapped_chunks(text: Seq<char>, config: ChunkConfig)
    requires
        !is_blank(text),
    ensures
        document_chunks(text, config).len() == raw_chunks(text, config).len(),
        document_chunks(text, config).len() > 0,
        document_chunks(text, config)[0] == raw_chunks(text, config)[0],
        forall|i: int|
            1 <= i < raw_chunks(text, config).len() ==> {
                let raw = raw_chunks(text, config);
                let out = #[trigger] document_chunks(text, config)[i];
                let o = overlap_text(raw[i - 1], config.overlap_characters as int);
                &&& out.len() <= raw[i].len() + config.overlap_characters + 9
                &&& {
                    ||| out == raw[i] && o.len() < MIN_OVERLAP_CHARACTERS
                    ||| out == overlap_open() + o + overlap_close() + raw[i]
                        && MIN_OVERLAP_CHARACTERS <= o.len() <= config.overlap_characters
                        && is_suffix(o, trim_end(raw[i - 1])) && at_word_start(
                        trim_end(raw[i - 1]),
                        trim_end(raw[i - 1]).len() - o.len(),
                    )
                }
            },
{
    lemma_no_chunks_iff_blank(text, config);
    let raw = raw_chunks(text, config);
    assert forall|i: int| 1 <= i < raw.len() implies {
        let out = #[trigger] document_chunks(text, config)[i];
        let o = overlap_text(raw[i - 1], config.overlap_characters as int);
        &&& out.len() <= raw[i].len() + config.overlap_characters + 9
        &&& {
            ||| out == raw[i] && o.len() < MIN_OVERLAP_CHARACTERS
            ||| out == overlap_open() + o + overlap_close() + raw[i] && MIN_OVERLAP_CHARACTERS
                <= o.len() <= config.overlap_characters && is_suffix(o, trim_end(raw[i - 1]))
                && at_word_start(trim_end(raw[i - 1]), trim_end(raw[i - 1]).len() - o.len())
        }
    } by {
        lemma_overlap_source(raw[i - 1], config.overlap_characters as int);
    }
}

/// With no overlap configured the chunks are handed out as they were cut,
/// so each of them keeps to the bound.
pub proof fn lemma_chunks_without_overlap(text: Seq<char>, config: ChunkConfig)
    requires
        config.overlap_characters == 0,
        !is_blank(text),
    ensures
        document_chunks(text, config) == raw_chunks(text, config),
        all_within_bound(document_chunks(text, config), config.max_characters as int),
{
    lemma_chunks_within_bound(text, config);
    let raw = raw_chunks(text, config);
    assert forall|i: int| 0 <= i < raw.len() implies document_chunks(text, config)[i]
        == raw[i] by {
        if i > 0 {
            lemma_overlap_source(raw[i - 1], 0);
        }
    }
    assert(document_chunks(text, config) =~= raw);
}

} // verus!
