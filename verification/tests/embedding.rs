use palank_rag::embedding::{
    backoff_ms, response_outcome, status_kind, OutcomeKind, copy_request, BatchStep, EmbedBatch, EmbedRequest, PacingCall, PollResult,
    AttemptResult, create_embedder, create_embedder_with_dimension, get_api_key, has_api_key,
    run_attempts, AcquireAction, AttemptOutcome, EmbedPlan, EmbeddingError, GeminiEmbedding,
    RateLimiter, RetryDecision, RetryState, DEFAULT_DIMENSION, INITIAL_BACKOFF_MS, MAX_RETRIES,
    MIN_DELAY_MS, RATE_LIMIT_RPM, RATE_LIMIT_WINDOW_MS,
};

#[test]
fn test_has_api_key() {
    let _ = has_api_key(&None, &None);
}

#[test]
fn test_invalid_dimension() {
    let result = GeminiEmbedding::with_dimension("fake_key".to_string(), 999);
    assert!(result.is_err());
    let err = result.err();
    assert!(err.is_some());
    assert!(err
        .as_ref()
        .map(|e| e.message().contains("Invalid dimension"))
        .unwrap_or(false));
}

#[test]
fn test_valid_dimensions() {
    for dim in [768, 1536, 3072] {
        let result = GeminiEmbedding::with_dimension("fake_key".to_string(), dim);
        assert!(result.is_ok());
    }
}

#[test]
fn test_create_embedder_without_key_returns_error() {
    let result = create_embedder(None, None);
    assert!(result.is_err());
    let err = result.err();
    assert!(err.is_some());
}

#[test]
fn invalid_dimension_message_is_exact() {
    let err = GeminiEmbedding::with_dimension("k".to_string(), 999).err().unwrap();
    assert_eq!(err, EmbeddingError::InvalidDimension(999));
    assert_eq!(
        err.message(),
        "Invalid dimension: 999. Must be 768, 1536, or 3072"
    );
    let zero = GeminiEmbedding::with_dimension("k".to_string(), 0).err().unwrap();
    assert_eq!(zero.message(), "Invalid dimension: 0. Must be 768, 1536, or 3072");
}

#[test]
fn error_messages_name_their_cause() {
    assert_eq!(
        EmbeddingError::RateLimitExhausted.message(),
        "Rate limit exceeded (429)"
    );
    assert_eq!(
        EmbeddingError::TransportFailure("timed out".to_string()).message(),
        "Failed to send embedding request: timed out"
    );
    assert_eq!(
        EmbeddingError::Upstream {
            status: "INVALID_ARGUMENT".to_string(),
            message: "bad request".to_string()
        }
        .message(),
        "Gemini API error (INVALID_ARGUMENT): bad request"
    );
    assert_eq!(
        EmbeddingError::InvalidResponse("no values".to_string()).message(),
        "Failed to read embedding response: no values"
    );
    assert!(EmbeddingError::MissingApiKey.message().contains("API key not found"));
}

#[test]
fn client_keeps_key_and_dimension() {
    let client = GeminiEmbedding::new("secret".to_string()).unwrap();
    assert_eq!(client.dimension(), DEFAULT_DIMENSION);
    assert_eq!(client.api_key(), "secret");
    assert_eq!(client.name(), "gemini-embedding-001");
    let wide = GeminiEmbedding::with_dimension("secret".to_string(), 3072).unwrap();
    assert_eq!(wide.dimension(), 3072);
}

#[test]
fn blank_text_is_embedded_without_a_call() {
    let client = GeminiEmbedding::with_dimension("k".to_string(), 1536).unwrap();
    assert_eq!(client.plan(""), EmbedPlan::ZeroVector(1536));
    assert_eq!(client.plan("  \n\t "), EmbedPlan::ZeroVector(1536));
    match client.plan("hello") {
        EmbedPlan::Call(request) => {
            assert_eq!(request.model, "models/gemini-embedding-001");
            assert_eq!(request.text, "hello");
            assert_eq!(request.task_type, "RETRIEVAL_DOCUMENT");
            assert_eq!(request.output_dimensionality, 1536);
        }
        other => panic!("unexpected plan {:?}", other),
    }
}

#[test]
fn api_key_prefers_the_first_candidate() {
    assert_eq!(
        get_api_key(Some("a".to_string()), Some("b".to_string())),
        Ok("a".to_string())
    );
    assert_eq!(
        get_api_key(Some(String::new()), Some("b".to_string())),
        Ok("b".to_string())
    );
    assert_eq!(get_api_key(None, Some("b".to_string())), Ok("b".to_string()));
    assert_eq!(
        get_api_key(Some(String::new()), Some(String::new())),
        Err(EmbeddingError::MissingApiKey)
    );
    assert_eq!(get_api_key(None, None), Err(EmbeddingError::MissingApiKey));
    assert!(has_api_key(&Some("a".to_string()), &None));
    assert!(has_api_key(&None, &Some("b".to_string())));
    assert!(!has_api_key(&Some(String::new()), &None));
    assert!(!has_api_key(&None, &None));
}

#[test]
fn embedder_needs_key_before_dimension() {
    assert_eq!(
        create_embedder_with_dimension(None, None, 999).err(),
        Some(EmbeddingError::MissingApiKey)
    );
    assert_eq!(
        create_embedder_with_dimension(Some("k".to_string()), None, 999).err(),
        Some(EmbeddingError::InvalidDimension(999))
    );
    let ok = create_embedder_with_dimension(None, Some("g".to_string()), 1536).unwrap();
    assert_eq!(ok.api_key(), "g");
    assert_eq!(ok.dimension(), 1536);
}

#[test]
fn backoff_doubles_from_the_initial_delay() {
    assert_eq!(backoff_ms(0), INITIAL_BACKOFF_MS);
    assert_eq!(backoff_ms(0), 2000);
    assert_eq!(backoff_ms(1), 4000);
    assert_eq!(backoff_ms(2), 8000);
    assert_eq!(backoff_ms(3), 16000);
    assert_eq!(backoff_ms(10), 2000 * 1024);
    assert_eq!(backoff_ms(53), 2000 << 53);
    assert_eq!(backoff_ms(54), u64::MAX);
    assert_eq!(backoff_ms(u32::MAX >> 12), u64::MAX);
}

#[test]
fn retry_succeeds_on_third_attempt_after_two_rate_limits() {
    let report = run_attempts(vec![
        AttemptOutcome::RateLimited,
        AttemptOutcome::RateLimited,
        AttemptOutcome::Success(vec![1u8, 2, 3]),
    ]);
    assert_eq!(report.result, Some(Ok(vec![1u8, 2, 3])));
    assert_eq!(report.attempt, 2);
    assert_eq!(report.waited_ms, 2000 + 4000);
}

#[test]
fn retry_gives_up_after_all_attempts_fail() {
    let outcomes: Vec<AttemptOutcome<u8>> = (0..=MAX_RETRIES)
        .map(|_| AttemptOutcome::RateLimited)
        .collect();
    let report = run_attempts(outcomes);
    assert_eq!(report.result, Some(Err(EmbeddingError::RateLimitExhausted)));
    assert_eq!(report.attempt, MAX_RETRIES);
    assert_eq!(report.waited_ms, 2000 + 4000 + 8000);
}

#[test]
fn transport_failures_are_retried_like_rate_limits() {
    let report = run_attempts(vec![
        AttemptOutcome::TransportFailed("reset".to_string()),
        AttemptOutcome::Success(7u8),
    ]);
    assert_eq!(report.result, Some(Ok(7u8)));
    assert_eq!(report.attempt, 1);
    assert_eq!(report.waited_ms, 2000);

    let all: Vec<AttemptOutcome<u8>> = vec![
        AttemptOutcome::TransportFailed("a".to_string()),
        AttemptOutcome::RateLimited,
        AttemptOutcome::TransportFailed("c".to_string()),
        AttemptOutcome::TransportFailed("down".to_string()),
    ];
    let report = run_attempts(all);
    assert_eq!(
        report.result,
        Some(Err(EmbeddingError::TransportFailure("down".to_string())))
    );
    assert_eq!(report.attempt, 3);
}

#[test]
fn other_failures_end_the_call_at_once() {
    let report = run_attempts(vec![
        AttemptOutcome::Rejected {
            status: "PERMISSION_DENIED".to_string(),
            message: "bad key".to_string(),
        },
        AttemptOutcome::Success(1u8),
    ]);
    assert_eq!(
        report.result,
        Some(Err(EmbeddingError::Upstream {
            status: "PERMISSION_DENIED".to_string(),
            message: "bad key".to_string()
        }))
    );
    assert_eq!(report.attempt, 0);
    assert_eq!(report.waited_ms, 0);

    let report = run_attempts(vec![
        AttemptOutcome::RateLimited,
        AttemptOutcome::<u8>::Unreadable("truncated".to_string()),
    ]);
    assert_eq!(
        report.result,
        Some(Err(EmbeddingError::InvalidResponse("truncated".to_string())))
    );
    assert_eq!(report.attempt, 1);
}

#[test]
fn unfinished_script_reports_no_result() {
    let report = run_attempts(vec![AttemptOutcome::<u8>::RateLimited]);
    assert_eq!(report.result, None);
    assert_eq!(report.attempt, 1);
    assert_eq!(report.waited_ms, 2000);
    let empty = run_attempts(Vec::<AttemptOutcome<u8>>::new());
    assert_eq!(empty.result, None);
    assert_eq!(empty.attempt, 0);
}

#[test]
fn retry_state_steps_one_attempt_at_a_time() {
    let state = RetryState::new();
    assert_eq!(state.attempts_made(), 0);
    match state.on_outcome(AttemptOutcome::<u8>::RateLimited) {
        RetryDecision::RetryAfter { delay_ms, state } => {
            assert_eq!(delay_ms, 2000);
            assert_eq!(state.attempts_made(), 1);
            match state.on_outcome(AttemptOutcome::Success(9u8)) {
                RetryDecision::Done(v) => assert_eq!(v, 9),
                _ => panic!("expected the embedding"),
            }
        }
        _ => panic!("expected a retry"),
    }
}

#[test]
fn limiter_grants_first_call_and_paces_the_next() {
    let mut limiter = RateLimiter::new(RATE_LIMIT_RPM, RATE_LIMIT_WINDOW_MS);
    assert_eq!(limiter.poll(5), AcquireAction::Granted);
    assert_eq!(limiter.poll(5), AcquireAction::Wait(MIN_DELAY_MS));
    assert_eq!(limiter.poll(405), AcquireAction::Wait(600));
    assert_eq!(limiter.poll(1004), AcquireAction::Wait(1));
    assert_eq!(limiter.poll(1005), AcquireAction::Granted);
}

#[test]
fn sequential_calls_take_at_least_the_minimum_delay_each() {
    let delay: u64 = 250;
    let calls: u64 = 7;
    let mut limiter = RateLimiter::with_min_delay(100, 60_000, delay);
    let mut clock: u64 = 10;
    let mut granted: Vec<u64> = Vec::new();
    while (granted.len() as u64) < calls {
        match limiter.poll(clock) {
            AcquireAction::Granted => granted.push(clock),
            AcquireAction::Wait(ms) => clock += ms,
        }
    }
    let elapsed = granted[granted.len() - 1] - granted[0];
    assert!(elapsed >= (calls - 1) * delay);
    assert_eq!(elapsed, (calls - 1) * delay);
    for pair in granted.windows(2) {
        assert!(pair[1] - pair[0] >= delay);
    }
}

#[test]
fn limiter_waits_for_the_oldest_call_to_leave_a_full_window() {
    let mut limiter = RateLimiter::with_min_delay(2, 1000, 100);
    assert_eq!(limiter.poll(0), AcquireAction::Granted);
    assert_eq!(limiter.poll(100), AcquireAction::Granted);
    // The window holds two calls: the third waits until the first leaves it.
    assert_eq!(limiter.poll(200), AcquireAction::Wait(800));
    assert_eq!(limiter.poll(999), AcquireAction::Wait(1));
    assert_eq!(limiter.poll(1000), AcquireAction::Granted);
    // At 1100 the call at 100 has left the window as well.
    assert_eq!(limiter.poll(1100), AcquireAction::Granted);
    // Now the call at 1000 is the oldest of two.
    assert_eq!(limiter.poll(1200), AcquireAction::Wait(800));
}

#[test]
fn limiter_never_lets_its_clock_run_backwards() {
    let mut limiter = RateLimiter::with_min_delay(10, 1000, 100);
    assert_eq!(limiter.poll(500), AcquireAction::Granted);
    // A reading before the last one counts as the last one.
    assert_eq!(limiter.poll(100), AcquireAction::Wait(100));
    assert_eq!(limiter.poll(600), AcquireAction::Granted);
}

#[test]
fn client_paces_through_its_limiter() {
    let mut client = GeminiEmbedding::new("k".to_string()).unwrap();
    assert_eq!(client.poll_rate_limit(0), AcquireAction::Granted);
    assert_eq!(client.poll_rate_limit(1), AcquireAction::Wait(999));
    assert_eq!(client.poll_rate_limit(1000), AcquireAction::Granted);
}

#[test]
fn batch_embeds_texts_in_order() {
    let mut step: BatchStep<u8> = EmbedBatch::start(3);
    let mut asked = Vec::new();
    let embeddings = loop {
        step = match step {
            BatchStep::Embed { index, batch } => {
                asked.push(index);
                batch.on_result(Ok(10 + index as u8))
            }
            BatchStep::Done(v) => break v,
            BatchStep::Failed(e) => panic!("unexpected failure {:?}", e),
        };
    };
    assert_eq!(asked, vec![0, 1, 2]);
    assert_eq!(embeddings, vec![10, 11, 12]);
    match EmbedBatch::<u8>::start(0) {
        BatchStep::Done(v) => assert!(v.is_empty()),
        _ => panic!("an empty batch is done"),
    }
}

#[test]
fn batch_ends_with_the_first_failure() {
    let step: BatchStep<u8> = EmbedBatch::start(3);
    let batch = match step {
        BatchStep::Embed { index: 0, batch } => batch,
        _ => panic!("expected the first text"),
    };
    let batch = match batch.on_result(Ok(1)) {
        BatchStep::Embed { index: 1, batch } => batch,
        _ => panic!("expected the second text"),
    };
    match batch.on_result(Err(EmbeddingError::RateLimitExhausted)) {
        BatchStep::Failed(e) => assert_eq!(e, EmbeddingError::RateLimitExhausted),
        _ => panic!("expected the failure"),
    }
}

#[test]
fn call_asks_for_leave_before_every_attempt() {
    let mut client = GeminiEmbedding::new("k".to_string()).unwrap();
    let request = match client.plan("some text") {
        EmbedPlan::Call(request) => request,
        other => panic!("unexpected plan {:?}", other),
    };
    assert_eq!(copy_request(&request), request);
    let call = PacingCall::new(request.clone());
    let sending = match call.poll(&mut client, 0) {
        PollResult::Send { request: sent, call } => {
            assert_eq!(sent, request);
            call
        }
        PollResult::Wait { .. } => panic!("the first call is granted"),
    };
    let waiting = match sending.on_outcome(AttemptOutcome::<u8>::RateLimited) {
        AttemptResult::Backoff { ms, call } => {
            assert_eq!(ms, 2000);
            call
        }
        _ => panic!("expected a retry"),
    };
    // The retry is paced too: half a second after the first attempt it waits.
    let waiting = match waiting.poll(&mut client, 500) {
        PollResult::Wait { ms, call } => {
            assert_eq!(ms, 500);
            call
        }
        PollResult::Send { .. } => panic!("expected a wait"),
    };
    let sending = match waiting.poll(&mut client, 2000) {
        PollResult::Send { request: sent, call } => {
            assert_eq!(sent, request);
            call
        }
        PollResult::Wait { .. } => panic!("expected leave"),
    };
    match sending.on_outcome(AttemptOutcome::Success(5u8)) {
        AttemptResult::Done(v) => assert_eq!(v, 5),
        _ => panic!("expected the embedding"),
    }
    let _unused: Option<EmbedRequest> = None;
}

#[test]
fn client_from_the_environment_takes_the_first_key_that_is_set() {
    let client = GeminiEmbedding::from_env(Some(String::new()), Some("g".to_string())).unwrap();
    assert_eq!(client.api_key(), "g");
    assert_eq!(client.dimension(), DEFAULT_DIMENSION);
    assert_eq!(
        GeminiEmbedding::from_env(None, None).err(),
        Some(EmbeddingError::MissingApiKey)
    );
    let wide = GeminiEmbedding::from_env_with_dimension(Some("k".to_string()), None, 3072).unwrap();
    assert_eq!(wide.dimension(), 3072);
    assert_eq!(
        GeminiEmbedding::from_env_with_dimension(Some("k".to_string()), None, 1).err(),
        Some(EmbeddingError::InvalidDimension(1))
    );
}

#[test]
fn statuses_are_success_rate_limit_or_refusal() {
    for status in [200u16, 201, 204, 299] {
        assert_eq!(status_kind(status), OutcomeKind::Success);
    }
    assert_eq!(status_kind(429), OutcomeKind::RateLimited);
    for status in [0u16, 100, 199, 300, 301, 400, 401, 403, 404, 428, 430, 500, 503, u16::MAX] {
        assert_eq!(status_kind(status), OutcomeKind::Rejected);
    }
}

#[test]
fn answers_become_outcomes_by_their_status() {
    let described = Some(("INVALID_ARGUMENT".to_string(), "bad input".to_string()));
    assert_eq!(
        response_outcome(200, "200 OK".to_string(), "{}".to_string(), Ok(vec![1u8]), None),
        AttemptOutcome::Success(vec![1u8])
    );
    assert_eq!(
        response_outcome::<u8>(
            200,
            "200 OK".to_string(),
            "{".to_string(),
            Err("EOF".to_string()),
            described.clone()
        ),
        AttemptOutcome::Unreadable("EOF".to_string())
    );
    assert_eq!(
        response_outcome(
            429,
            "429 Too Many Requests".to_string(),
            "slow down".to_string(),
            Ok(1u8),
            described.clone()
        ),
        AttemptOutcome::RateLimited
    );
    assert_eq!(
        response_outcome(
            400,
            "400 Bad Request".to_string(),
            "body".to_string(),
            Ok(1u8),
            described
        ),
        AttemptOutcome::Rejected {
            status: "INVALID_ARGUMENT".to_string(),
            message: "bad input".to_string()
        }
    );
    assert_eq!(
        response_outcome::<u8>(
            503,
            "503 Service Unavailable".to_string(),
            "<html>".to_string(),
            Err("not json".to_string()),
            None
        ),
        AttemptOutcome::Rejected {
            status: "503 Service Unavailable".to_string(),
            message: "<html>".to_string()
        }
    );
}

#[test]
fn granted_call_is_the_last_entry_of_an_ordered_window() {
    let mut limiter = RateLimiter::with_min_delay(3, 1000, 100);
    let mut clock = 0;
    let mut granted = Vec::new();
    while granted.len() < 8 {
        match limiter.poll(clock) {
            AcquireAction::Granted => granted.push(clock),
            AcquireAction::Wait(ms) => clock += ms,
        }
    }
    // No more than three calls in any stretch shorter than the window.
    for w in granted.windows(4) {
        assert!(w[3] - w[0] >= 1000);
    }
    for w in granted.windows(2) {
        assert!(w[1] - w[0] >= 100);
    }
    assert_eq!(granted, vec![0, 100, 200, 1000, 1100, 1200, 2000, 2100]);
}
