//! Markdown-aware chunking: a document becomes an ordered sequence of
//! bounded pieces of text, each of which may open with the end of the piece
//! before it.
//!
//! Sizes are counted in characters. The contracts are stated over the spec
//! functions of this module, which describe the pieces as sequences of
//! characters.
use crate::text::{
    append, blank, char_is_whitespace, copy_chars, copy_range, find_from, first_index, is_blank,
    is_whitespace, lemma_views_push, lines, split_breaks, split_lines, split_on_breaks, texts,
    to_char_vecs, to_chars, to_strings, trim, trim_pieces, trimmed, trimmed_nonempty, views,
    CharClass,
};
use vstd::string::StringSliceAdditionalSpecFns;
use vstd::utf8::{
    encode_utf8_valid_utf8, is_char_boundary, is_char_boundary_start_end_of_seq, valid_utf8,
};
use vstd::prelude::*;

verus! {

/// The bounds that the chunker works with, in characters.
#[derive(Debug, Clone, Copy)]
pub struct ChunkConfig {
    /// A chunk below this size is joined with a neighbour where that fits.
    pub min_characters: usize,
    /// No chunk of several lines is longer than this.
    pub max_characters: usize,
    /// How much of the end of a chunk is repeated before the next one.
    pub overlap_characters: usize,
}

impl Default for ChunkConfig {
    fn default() -> (r: Self)
        ensures
            r.min_characters == 200,
            r.max_characters == 1200,
            r.overlap_characters == 100,
    {
        ChunkConfig { min_characters: 200, max_characters: 1200, overlap_characters: 100 }
    }
}

impl ChunkConfig {
    /// The bounds tuned for retrieval: larger chunks, more overlap.
    pub fn for_rag() -> (r: Self)
        ensures
            r.min_characters == 300,
            r.max_characters == 1500,
            r.overlap_characters == 150,
    {
        ChunkConfig { min_characters: 300, max_characters: 1500, overlap_characters: 150 }
    }

    /// The bounds tuned for fast indexing: no overlap.
    pub fn for_fast() -> (r: Self)
        ensures
            r.min_characters == 500,
            r.max_characters == 1000,
            r.overlap_characters == 0,
    {
        ChunkConfig { min_characters: 500, max_characters: 1000, overlap_characters: 0 }
    }
}

/// Whether the line opens a section: one to six `#`, then whitespace.
pub open spec fn is_header(line: Seq<char>) -> bool {
    let h = first_index(line, CharClass::Other('#'));
    1 <= h <= 6 && h < line.len() && is_whitespace(line[h])
}

/// Whether the line opens or closes a fenced code block: its first
/// characters after the indentation are three backticks.
pub open spec fn is_fence(line: Seq<char>) -> bool {
    let a = first_index(line, CharClass::NonWhitespace);
    a + 3 <= line.len() && line[a] == '`' && line[a + 1] == '`' && line[a + 2] == '`'
}

/// Whether the line opens a section.
pub fn header_line(line: &Vec<char>) -> (r: bool)
    ensures
        r == is_header(line@),
{
    let h = find_from(line, 0, CharClass::Other('#'));
    proof {
        assert(line@.skip(0) =~= line@);
    }
    1 <= h && h <= 6 && h < line.len() && char_is_whitespace(line[h])
}

/// Whether the line opens or closes a fenced code block.
pub fn fence_line(line: &Vec<char>) -> (r: bool)
    ensures
        r == is_fence(line@),
{
    let a = find_from(line, 0, CharClass::NonWhitespace);
    proof {
        assert(line@.skip(0) =~= line@);
    }
    line.len() >= 3 && a <= line.len() - 3 && line[a] == '`' && line[a + 1] == '`' && line[a + 2]
        == '`'
}

/// What a scan of the lines of a document has found: the sections that are
/// closed, the text of the section that is open, and whether the last line
/// read lies inside a fenced code block.
pub struct SectionScan {
    pub done: Seq<Seq<char>>,
    pub current: Seq<char>,
    pub in_code: bool,
}

/// The scan after one more line. A fence line toggles the code block. A
/// header outside a code block closes the open section, unless that is still
/// empty, and opens the next one.
pub open spec fn scan_line(st: SectionScan, line: Seq<char>) -> SectionScan {
    let in_code = if is_fence(line) {
        !st.in_code
    } else {
        st.in_code
    };
    if !in_code && is_header(line) && st.current.len() > 0 {
        SectionScan { done: st.done.push(trim(st.current)), current: line.push('\n'), in_code }
    } else {
        SectionScan { done: st.done, current: st.current + line.push('\n'), in_code }
    }
}

/// The scan after all the given lines.
pub open spec fn scan_lines(ls: Seq<Seq<char>>) -> SectionScan
    decreases ls.len(),
{
    if ls.len() == 0 {
        SectionScan { done: Seq::empty(), current: Seq::empty(), in_code: false }
    } else {
        scan_line(scan_lines(ls.drop_last()), ls.last())
    }
}

/// The sections of a document: the trimmed texts between the headers that
/// stand outside fenced code blocks. A last section of whitespace is left
/// out.
pub open spec fn sections(text: Seq<char>) -> Seq<Seq<char>> {
    let st = scan_lines(lines(text));
    if is_blank(st.current) {
        st.done
    } else {
        st.done.push(trim(st.current))
    }
}

/// The sections of a document.
pub fn split_into_sections(text: &Vec<char>) -> (out: Vec<Vec<char>>)
    ensures
        views(out@) == sections(text@),
{
    let ls = split_lines(text);
    let mut done: Vec<Vec<char>> = Vec::new();
    let mut current: Vec<char> = Vec::new();
    let mut in_code = false;
    let mut i: usize = 0;
    proof {
        assert(views(done@) =~= Seq::<Seq<char>>::empty());
        assert(views(ls@).take(0) =~= Seq::<Seq<char>>::empty());
    }
    while i < ls.len()
        invariant
            i <= ls.len(),
            views(ls@) == lines(text@),
            views(done@) == scan_lines(views(ls@).take(i as int)).done,
            current@ == scan_lines(views(ls@).take(i as int)).current,
            in_code == scan_lines(views(ls@).take(i as int)).in_code,
        decreases ls.len() - i,
    {
        let line = &ls[i];
        proof {
            let upto = views(ls@).take(i + 1);
            assert(upto.drop_last() =~= views(ls@).take(i as int));
            assert(upto.last() == line@);
        }
        if fence_line(line) {
            in_code = !in_code;
        }
        if !in_code && header_line(line) && current.len() > 0 {
            let closed = trimmed(&current);
            proof {
                lemma_views_push(done@, closed);
            }
            done.push(closed);
            current = Vec::new();
        }
        let ghost before = current@;
        append(&mut current, line);
        current.push('\n');
        proof {
            assert(current@ =~= before + line@.push('\n'));
            assert(Seq::<char>::empty() + line@.push('\n') =~= line@.push('\n'));
        }
        i += 1;
    }
    proof {
        assert(views(ls@).take(ls.len() as int) =~= views(ls@));
    }
    if !blank(&current) {
        let closed = trimmed(&current);
        proof {
            lemma_views_push(done@, closed);
        }
        done.push(closed);
    }
    done
}

/// Chunks under construction: those that are closed, and the text of the
/// one that is open (empty when none is).
pub struct Packing {
    pub done: Seq<Seq<char>>,
    pub current: Seq<char>,
}

/// The chunks of a packing, the open one closed.
pub open spec fn finish(st: Packing) -> Seq<Seq<char>> {
    if st.current.len() > 0 {
        st.done.push(st.current)
    } else {
        st.done
    }
}

/// Closes the open chunk where a piece of `piece_len` characters, after a
/// separator of `sep` characters, would take it over `max`.
pub open spec fn make_room(st: Packing, piece_len: int, sep: int, max: int) -> Packing {
    if st.current.len() > 0 && st.current.len() + piece_len + sep > max {
        Packing { done: st.done.push(st.current), current: Seq::empty() }
    } else {
        st
    }
}

/// The text `current` continued by `piece`, with `sep` between the two
/// unless `current` is empty.
pub open spec fn join(current: Seq<char>, sep: Seq<char>, piece: Seq<char>) -> Seq<char> {
    if current.len() > 0 {
        current + sep + piece
    } else {
        piece
    }
}

/// What stands between two lines of one chunk.
pub open spec fn line_break() -> Seq<char> {
    seq!['\n']
}

/// What stands between two paragraphs of one chunk.
pub open spec fn paragraph_break() -> Seq<char> {
    seq!['\n', '\n']
}

/// The packing after one more line: the line joins the open chunk if the
/// two fit into `max`, and opens a new chunk if not. A line is never cut.
pub open spec fn pack_line(st: Packing, line: Seq<char>, max: int) -> Packing {
    let r = make_room(st, line.len() as int, 1, max);
    Packing { done: r.done, current: join(r.current, line_break(), line) }
}

/// The packing of the given lines.
pub open spec fn pack_lines(ls: Seq<Seq<char>>, max: int) -> Packing
    decreases ls.len(),
{
    if ls.len() == 0 {
        Packing { done: Seq::empty(), current: Seq::empty() }
    } else {
        pack_line(pack_lines(ls.drop_last(), max), ls.last(), max)
    }
}

/// The packing after one more paragraph. A paragraph of at most `max`
/// characters joins the open chunk if the two fit, and opens a new chunk if
/// not. A longer paragraph closes the open chunk and is packed line by line;
/// the last chunk of its lines stays open.
pub open spec fn pack_paragraph(st: Packing, para: Seq<char>, max: int) -> Packing {
    let r = make_room(st, para.len() as int, 2, max);
    if para.len() > max {
        let inner = pack_lines(lines(para), max);
        Packing { done: r.done + inner.done, current: inner.current }
    } else {
        Packing { done: r.done, current: join(r.current, paragraph_break(), para) }
    }
}

/// The packing of the given paragraphs.
pub open spec fn pack_paragraphs(paras: Seq<Seq<char>>, max: int) -> Packing
    decreases paras.len(),
{
    if paras.len() == 0 {
        Packing { done: Seq::empty(), current: Seq::empty() }
    } else {
        pack_paragraph(pack_paragraphs(paras.drop_last(), max), paras.last(), max)
    }
}

/// The paragraphs of a section: its trimmed pieces between blank-line
/// breaks, the empty ones left out.
pub open spec fn paragraphs(section: Seq<char>) -> Seq<Seq<char>> {
    trimmed_nonempty(split_breaks(section))
}

/// Whether the chunk `chunk` joins the chunk `last` before it: one of the
/// two is shorter than `min`, and the two, with a paragraph break between
/// them, fit into `max`.
pub open spec fn merges(last: Seq<char>, chunk: Seq<char>, min: int, max: int) -> bool {
    (last.len() < min || chunk.len() < min) && last.len() + chunk.len() + 2 <= max
}

/// The chunks after one more: it joins the last chunk where `merges` says
/// so, and else follows it.
pub open spec fn merge_one(merged: Seq<Seq<char>>, chunk: Seq<char>, min: int, max: int) -> Seq<
    Seq<char>,
> {
    if merged.len() > 0 && merges(merged.last(), chunk, min, max) {
        merged.drop_last().push(merged.last() + paragraph_break() + chunk)
    } else {
        merged.push(chunk)
    }
}

/// The chunks with the small ones merged, from left to right.
pub open spec fn merge_small(chunks: Seq<Seq<char>>, min: int, max: int) -> Seq<Seq<char>>
    decreases chunks.len(),
{
    if chunks.len() == 0 {
        Seq::empty()
    } else {
        merge_one(merge_small(chunks.drop_last(), min, max), chunks.last(), min, max)
    }
}

/// The chunks of one section. A section of at most `max` characters is one
/// chunk. A longer one is packed paragraph by paragraph, and its small
/// chunks are merged.
pub open spec fn section_chunks(section: Seq<char>, min: int, max: int) -> Seq<Seq<char>> {
    if section.len() <= max {
        seq![section]
    } else {
        merge_small(finish(pack_paragraphs(paragraphs(section), max)), min, max)
    }
}

/// The chunks of all the sections, in order.
pub open spec fn all_section_chunks(secs: Seq<Seq<char>>, min: int, max: int) -> Seq<Seq<char>>
    decreases secs.len(),
{
    if secs.len() == 0 {
        Seq::empty()
    } else {
        all_section_chunks(secs.drop_last(), min, max) + section_chunks(secs.last(), min, max)
    }
}

/// The chunks that hold more than whitespace, in order.
pub open spec fn without_blank(chunks: Seq<Seq<char>>) -> Seq<Seq<char>>
    decreases chunks.len(),
{
    if chunks.len() == 0 {
        Seq::empty()
    } else if is_blank(chunks.last()) {
        without_blank(chunks.drop_last())
    } else {
        without_blank(chunks.drop_last()).push(chunks.last())
    }
}

/// The chunks of a document before any overlap is added.
pub open spec fn raw_chunks(text: Seq<char>, config: ChunkConfig) -> Seq<Seq<char>> {
    without_blank(
        all_section_chunks(
            sections(text),
            config.min_characters as int,
            config.max_characters as int,
        ),
    )
}

/// Whether `a + b + sep` is more than `max`.
pub fn exceeds(a: usize, b: usize, sep: usize, max: usize) -> (r: bool)
    ensures
        r == (a + b + sep > max),
{
    a > max || b > max - a || sep > max - a - b
}

/// Packs the lines of a long paragraph: the chunks that get closed are
/// pushed onto `done`, the open one is returned.
pub fn pack_long_paragraph(para: &Vec<char>, max: usize, done: &mut Vec<Vec<char>>) -> (current:
    Vec<char>)
    ensures
        views(final(done)@) == views(old(done)@) + pack_lines(lines(para@), max as int).done,
        current@ == pack_lines(lines(para@), max as int).current,
{
    let ls = split_lines(para);
    let mut current: Vec<char> = Vec::new();
    let mut i: usize = 0;
    proof {
        assert(views(ls@).take(0) =~= Seq::<Seq<char>>::empty());
        assert(views(done@) + Seq::<Seq<char>>::empty() =~= views(done@));
    }
    while i < ls.len()
        invariant
            i <= ls.len(),
            views(ls@) == lines(para@),
            views(done@) == views(old(done)@) + pack_lines(
                views(ls@).take(i as int),
                max as int,
            ).done,
            current@ == pack_lines(views(ls@).take(i as int), max as int).current,
        decreases ls.len() - i,
    {
        let line = &ls[i];
        let ghost before = pack_lines(views(ls@).take(i as int), max as int);
        proof {
            let upto = views(ls@).take(i + 1);
            assert(upto.drop_last() =~= views(ls@).take(i as int));
            assert(upto.last() == line@);
        }
        if current.len() > 0 && exceeds(current.len(), line.len(), 1, max) {
            proof {
                lemma_views_push(done@, current);
                assert((views(old(done)@) + before.done).push(current@) =~= views(old(done)@)
                    + before.done.push(current@));
            }
            done.push(current);
            current = Vec::new();
        }
        if current.len() > 0 {
            let ghost c0 = current@;
            current.push('\n');
            append(&mut current, line);
            proof {
                assert(current@ =~= c0 + line_break() + line@);
            }
        } else {
            current = copy_chars(line);
        }
        i += 1;
    }
    proof {
        assert(views(ls@).take(ls.len() as int) =~= views(ls@));
    }
    current
}

/// The chunks with the small ones merged.
pub fn merge_small_texts(chunks: &Vec<Vec<char>>, min: usize, max: usize) -> (out: Vec<Vec<char>>)
    ensures
        views(out@) == merge_small(views(chunks@), min as int, max as int),
{
    let mut out: Vec<Vec<char>> = Vec::new();
    let mut i: usize = 0;
    proof {
        assert(views(out@) =~= Seq::<Seq<char>>::empty());
        assert(views(chunks@).take(0) =~= Seq::<Seq<char>>::empty());
    }
    while i < chunks.len()
        invariant
            i <= chunks.len(),
            views(out@) == merge_small(views(chunks@).take(i as int), min as int, max as int),
        decreases chunks.len() - i,
    {
        let chunk = &chunks[i];
        let ghost merged = views(out@);
        proof {
            let upto = views(chunks@).take(i + 1);
            assert(upto.drop_last() =~= views(chunks@).take(i as int));
            assert(upto.last() == chunk@);
        }
        let n = out.len();
        if n > 0 && (out[n - 1].len() < min || chunk.len() < min) && !exceeds(
            out[n - 1].len(),
            chunk.len(),
            2,
            max,
        ) {
            assert(merged.last() == out@[n - 1]@);
            let popped = out.pop();
            let mut last = popped.unwrap();
            proof {
                assert(views(out@) =~= merged.drop_last());
            }
            let ghost l0 = last@;
            last.push('\n');
            last.push('\n');
            append(&mut last, chunk);
            proof {
                assert(last@ =~= l0 + paragraph_break() + chunk@);
                lemma_views_push(out@, last);
            }
            out.push(last);
        } else {
            let copy = copy_chars(chunk);
            proof {
                lemma_views_push(out@, copy);
            }
            out.push(copy);
        }
        i += 1;
    }
    proof {
        assert(views(chunks@).take(chunks.len() as int) =~= views(chunks@));
    }
    out
}

/// The chunks of one section.
pub fn chunk_section(section: &Vec<char>, min: usize, max: usize) -> (out: Vec<Vec<char>>)
    ensures
        views(out@) == section_chunks(section@, min as int, max as int),
{
    if section.len() <= max {
        let mut out: Vec<Vec<char>> = Vec::new();
        let copy = copy_chars(section);
        proof {
            lemma_views_push(out@, copy);
            assert(views(out@).push(copy@) =~= seq![section@]);
        }
        out.push(copy);
        return out;
    }
    let pieces = split_on_breaks(section);
    let paras = trim_pieces(&pieces);
    let mut done: Vec<Vec<char>> = Vec::new();
    let mut current: Vec<char> = Vec::new();
    let mut i: usize = 0;
    proof {
        assert(views(done@) =~= Seq::<Seq<char>>::empty());
        assert(views(paras@).take(0) =~= Seq::<Seq<char>>::empty());
    }
    while i < paras.len()
        invariant
            i <= paras.len(),
            views(paras@) == paragraphs(section@),
            views(done@) == pack_paragraphs(views(paras@).take(i as int), max as int).done,
            current@ == pack_paragraphs(views(paras@).take(i as int), max as int).current,
        decreases paras.len() - i,
    {
        let para = &paras[i];
        let ghost before = pack_paragraphs(views(paras@).take(i as int), max as int);
        proof {
            let upto = views(paras@).take(i + 1);
            assert(upto.drop_last() =~= views(paras@).take(i as int));
            assert(upto.last() == para@);
        }
        if current.len() > 0 && exceeds(current.len(), para.len(), 2, max) {
            proof {
                lemma_views_push(done@, current);
            }
            done.push(current);
            current = Vec::new();
        }
        if para.len() > max {
            current = pack_long_paragraph(para, max, &mut done);
        } else if current.len() > 0 {
            let ghost c0 = current@;
            current.push('\n');
            current.push('\n');
            append(&mut current, para);
            proof {
                assert(current@ =~= c0 + paragraph_break() + para@);
            }
        } else {
            current = copy_chars(para);
        }
        i += 1;
    }
    proof {
        assert(views(paras@).take(paras.len() as int) =~= views(paras@));
    }
    if current.len() > 0 {
        proof {
            lemma_views_push(done@, current);
        }
        done.push(current);
    }
    merge_small_texts(&done, min, max)
}

/// Appends copies of the chunks of `more` to `all`.
fn extend_chunks(all: &mut Vec<Vec<char>>, more: &Vec<Vec<char>>)
    ensures
        views(final(all)@) == views(old(all)@) + views(more@),
{
    let mut i: usize = 0;
    proof {
        assert(views(all@) + views(more@).take(0) =~= views(all@));
    }
    while i < more.len()
        invariant
            i <= more.len(),
            views(all@) == views(old(all)@) + views(more@).take(i as int),
        decreases more.len() - i,
    {
        let ghost a0 = views(all@);
        let copy = copy_chars(&more[i]);
        proof {
            lemma_views_push(all@, copy);
            assert(a0.push(copy@) =~= views(old(all)@) + views(more@).take(i + 1));
        }
        all.push(copy);
        i += 1;
    }
    proof {
        assert(views(more@).take(more.len() as int) =~= views(more@));
    }
}

/// The chunks of a document before any overlap is added.
pub fn chunk_without_overlap(text: &Vec<char>, config: &ChunkConfig) -> (out: Vec<Vec<char>>)
    ensures
        views(out@) == raw_chunks(text@, *config),
{
    let secs = split_into_sections(text);
    let min = config.min_characters;
    let max = config.max_characters;
    let mut all: Vec<Vec<char>> = Vec::new();
    let mut i: usize = 0;
    proof {
        assert(views(all@) =~= Seq::<Seq<char>>::empty());
        assert(views(secs@).take(0) =~= Seq::<Seq<char>>::empty());
    }
    while i < secs.len()
        invariant
            i <= secs.len(),
            views(all@) == all_section_chunks(views(secs@).take(i as int), min as int, max as int),
        decreases secs.len() - i,
    {
        proof {
            let upto = views(secs@).take(i + 1);
            assert(upto.drop_last() =~= views(secs@).take(i as int));
            assert(upto.last() == secs@[i as int]@);
        }
        let more = chunk_section(&secs[i], min, max);
        extend_chunks(&mut all, &more);
        i += 1;
    }
    proof {
        assert(views(secs@).take(secs.len() as int) =~= views(secs@));
    }
    let mut out: Vec<Vec<char>> = Vec::new();
    let mut j: usize = 0;
    proof {
        assert(views(out@) =~= Seq::<Seq<char>>::empty());
        assert(views(all@).take(0) =~= Seq::<Seq<char>>::empty());
    }
    while j < all.len()
        invariant
            j <= all.len(),
            views(out@) == without_blank(views(all@).take(j as int)),
        decreases all.len() - j,
    {
        proof {
            let upto = views(all@).take(j + 1);
            assert(upto.drop_last() =~= views(all@).take(j as int));
            assert(upto.last() == all@[j as int]@);
        }
        if !blank(&all[j]) {
            let copy = copy_chars(&all[j]);
            proof {
                lemma_views_push(out@, copy);
            }
            out.push(copy);
        }
        j += 1;
    }
    proof {
        assert(views(all@).take(all.len() as int) =~= views(all@));
    }
    out
}

/// An overlap shorter than this, once trimmed, is left out.
pub const MIN_OVERLAP_CHARACTERS: usize = 20;

/// Whether a word can begin at the place `k` of `s`: at the beginning of
/// `s`, or after a whitespace character.
pub open spec fn at_word_start(s: Seq<char>, k: int) -> bool {
    k == 0 || (0 < k <= s.len() && is_whitespace(s[k - 1]))
}

/// Where the overlap taken from `prev` begins, so that it never begins in
/// the middle of a word. The last `overlap` characters of `prev` are the
/// window. The overlap begins after the first whitespace character of the
/// window. Where the window holds no whitespace, the overlap begins with the
/// window if a word can begin there, and else there is no overlap: it
/// begins at the end of `prev`.
pub open spec fn overlap_start(prev: Seq<char>, overlap: int) -> int {
    let start = if prev.len() > overlap {
        prev.len() - overlap
    } else {
        0
    };
    let p = start + first_index(prev.skip(start), CharClass::Whitespace);
    if p < prev.len() {
        p + 1
    } else if at_word_start(prev, start) {
        start
    } else {
        prev.len() as int
    }
}

/// The overlap taken from `prev`: its text from `overlap_start` on, trimmed.
pub open spec fn overlap_text(prev: Seq<char>, overlap: int) -> Seq<char> {
    trim(prev.skip(overlap_start(prev, overlap)))
}

/// What stands before an overlap.
pub open spec fn overlap_open() -> Seq<char> {
    seq!['.', '.', '.', '\n']
}

/// What stands between an overlap and the chunk's own text.
pub open spec fn overlap_close() -> Seq<char> {
    seq!['\n', '-', '-', '-', '\n']
}

/// The chunk as it is handed out: after the overlap taken from `prev`,
/// where that has at least `MIN_OVERLAP_CHARACTERS` characters, and
/// unchanged where it has not.
pub open spec fn with_overlap(prev: Seq<char>, chunk: Seq<char>, overlap: int) -> Seq<char> {
    let o = overlap_text(prev, overlap);
    if o.len() >= MIN_OVERLAP_CHARACTERS {
        overlap_open() + o + overlap_close() + chunk
    } else {
        chunk
    }
}

/// The chunks as they are handed out: the first one unchanged, each other
/// one after the overlap taken from the chunk before it.
pub open spec fn overlapped(chunks: Seq<Seq<char>>, overlap: int) -> Seq<Seq<char>> {
    Seq::new(
        chunks.len(),
        |i: int|
            if i == 0 {
                chunks[0]
            } else {
                with_overlap(chunks[i - 1], chunks[i], overlap)
            },
    )
}

/// The chunks of a document: none for a blank text, else the chunks of its
/// sections, with overlaps.
pub open spec fn document_chunks(text: Seq<char>, config: ChunkConfig) -> Seq<Seq<char>> {
    if is_blank(text) {
        Seq::empty()
    } else {
        overlapped(raw_chunks(text, config), config.overlap_characters as int)
    }
}

/// The overlap taken from `prev`; empty where there is none.
pub fn take_overlap(prev: &Vec<char>, overlap: usize) -> (out: Vec<char>)
    ensures
        out@ == overlap_text(prev@, overlap as int),
{
    let start: usize = if prev.len() > overlap {
        prev.len() - overlap
    } else {
        0
    };
    let p = find_from(prev, start, CharClass::Whitespace);
    let word_start: usize = if p < prev.len() {
        p + 1
    } else if start == 0 || char_is_whitespace(prev[start - 1]) {
        start
    } else {
        prev.len()
    };
    let tail = copy_range(prev, word_start, prev.len());
    proof {
        assert(tail@ =~= prev@.skip(word_start as int));
    }
    trimmed(&tail)
}

/// The chunks as they are handed out.
pub fn add_overlaps(chunks: &Vec<Vec<char>>, overlap: usize) -> (out: Vec<Vec<char>>)
    ensures
        views(out@) == overlapped(views(chunks@), overlap as int),
{
    let mut out: Vec<Vec<char>> = Vec::new();
    let mut i: usize = 0;
    while i < chunks.len()
        invariant
            i <= chunks.len(),
            out.len() == i,
            forall|j: int|
                0 <= j < i ==> (#[trigger] out@[j])@ == overlapped(views(chunks@), overlap as int)[j],
        decreases chunks.len() - i,
    {
        let chunk = &chunks[i];
        if i == 0 {
            out.push(copy_chars(chunk));
        } else {
            let o = take_overlap(&chunks[i - 1], overlap);
            if o.len() >= MIN_OVERLAP_CHARACTERS {
                let mut piece: Vec<char> = Vec::new();
                piece.push('.');
                piece.push('.');
                piece.push('.');
                piece.push('\n');
                append(&mut piece, &o);
                piece.push('\n');
                piece.push('-');
                piece.push('-');
                piece.push('-');
                piece.push('\n');
                append(&mut piece, chunk);
                proof {
                    assert(piece@ =~= overlap_open() + o@ + overlap_close() + chunk@);
                }
                out.push(piece);
            } else {
                out.push(copy_chars(chunk));
            }
        }
        i += 1;
    }
    proof {
        assert(views(out@) =~= overlapped(views(chunks@), overlap as int));
    }
    out
}

/// A strategy that cuts a text into chunks.
pub trait Chunker: Send + Sync {
    /// The chunks of a text, as sequences of characters.
    spec fn chunks(&self, text: Seq<char>) -> Seq<Seq<char>>;

    /// Cuts the text into chunks.
    fn chunk(&self, text: &str) -> (out: Vec<String>)
        ensures
            texts(out@) == self.chunks(text@),
    ;

    /// The name of the strategy.
    fn name(&self) -> &'static str;
}

/// A chunker that follows the structure of a markdown document: it keeps
/// sections and fenced code blocks together, and cuts long sections at
/// paragraphs, then at lines.
pub struct MarkdownChunker {
    config: ChunkConfig,
}

impl View for MarkdownChunker {
    type V = ChunkConfig;

    closed spec fn view(&self) -> ChunkConfig {
        self.config
    }
}

impl MarkdownChunker {
    /// A chunker with the given bounds.
    pub fn new(config: ChunkConfig) -> (r: Self)
        ensures
            r@ == config,
    {
        MarkdownChunker { config }
    }

    /// A chunker with the default bounds.
    pub fn with_defaults() -> (r: Self)
        ensures
            r@.min_characters == 200,
            r@.max_characters == 1200,
            r@.overlap_characters == 100,
    {
        MarkdownChunker { config: ChunkConfig::default() }
    }

    /// The sections of a document.
    pub fn split_sections(&self, text: &str) -> (out: Vec<String>)
        ensures
            texts(out@) == sections(text@),
    {
        let chars = to_chars(text);
        to_strings(&split_into_sections(&chars))
    }

    /// The chunks of one section, before any overlap is added.
    pub fn split_long_section(&self, section: &str) -> (out: Vec<String>)
        ensures
            texts(out@) == section_chunks(
                section@,
                self@.min_characters as int,
                self@.max_characters as int,
            ),
    {
        let chars = to_chars(section);
        to_strings(&chunk_section(&chars, self.config.min_characters, self.config.max_characters))
    }

    /// The chunks with the small ones merged.
    pub fn merge_small_chunks(&self, chunks: Vec<String>) -> (out: Vec<String>)
        ensures
            texts(out@) == merge_small(
                texts(chunks@),
                self@.min_characters as int,
                self@.max_characters as int,
            ),
    {
        let pieces = to_char_vecs(&chunks);
        to_strings(
            &merge_small_texts(&pieces, self.config.min_characters, self.config.max_characters),
        )
    }

    /// The chunks as they are handed out, each after the overlap taken from
    /// the one before it.
    pub fn apply_overlap(&self, chunks: Vec<String>) -> (out: Vec<String>)
        ensures
            texts(out@) == overlapped(texts(chunks@), self@.overlap_characters as int),
    {
        let pieces = to_char_vecs(&chunks);
        to_strings(&add_overlaps(&pieces, self.config.overlap_characters))
    }
}

impl Chunker for MarkdownChunker {
    open spec fn chunks(&self, text: Seq<char>) -> Seq<Seq<char>> {
        document_chunks(text, self@)
    }

    fn chunk(&self, text: &str) -> (out: Vec<String>) {
        let chars = to_chars(text);
        if blank(&chars) {
            let out: Vec<String> = Vec::new();
            proof {
                assert(texts(out@) =~= Seq::<Seq<char>>::empty());
            }
            return out;
        }
        let raw = chunk_without_overlap(&chars, &self.config);
        to_strings(&add_overlaps(&raw, self.config.overlap_characters))
    }

    fn name(&self) -> (n: &'static str)
        ensures
            n@ == "MarkdownChunker"@,
    {
        "MarkdownChunker"
    }
}

/// The largest character boundary of `s` that is at most `index`: a byte
/// offset at which a character of `s` begins, or the length of `s` in bytes.
/// The length of `s` in bytes fits the machine's word, as that of every
/// string in memory does.
pub fn floor_char_boundary(s: &str, index: usize) -> (r: usize)
    requires
        s.spec_bytes().len() <= usize::MAX,
    ensures
        r <= index,
        r <= s.spec_bytes().len(),
        is_char_boundary(s.spec_bytes(), r as int),
        forall|j: int|
            r < j <= index && j <= s.spec_bytes().len() ==> !is_char_boundary(s.spec_bytes(), j),
        index >= s.spec_bytes().len() ==> r == s.spec_bytes().len(),
{
    proof {
        encode_utf8_valid_utf8(s@);
        is_char_boundary_start_end_of_seq(s.spec_bytes());
    }
    let n = s.len();
    if index >= n {
        assert(is_char_boundary(s.spec_bytes(), n as int));
        return n;
    }
    let mut i: usize = index;
    while i > 0 && !s.is_char_boundary(i)
        invariant
            i <= index < s.spec_bytes().len(),
            valid_utf8(s.spec_bytes()),
            forall|j: int| i < j <= index ==> !is_char_boundary(s.spec_bytes(), j),
        decreases i,
    {
        i -= 1;
    }
    assert(is_char_boundary(s.spec_bytes(), i as int));
    i
}

/// The default chunker: a markdown chunker with the default bounds, boxed
/// so that it can stand for any chunker.
pub fn default_chunker() -> (r: Box<MarkdownChunker>)
    ensures
        (*r)@.min_characters == 200,
        (*r)@.max_characters == 1200,
        (*r)@.overlap_characters == 100,
{
    Box::new(MarkdownChunker::with_defaults())
}

/// A markdown chunker with the given bounds, boxed so that it can stand for
/// any chunker.
pub fn markdown_chunker(config: ChunkConfig) -> (r: Box<MarkdownChunker>)
    ensures
        (*r)@ == config,
{
    Box::new(MarkdownChunker::new(config))
}

} // verus!
