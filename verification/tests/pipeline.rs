use epub_translator::pipeline::{
    Action, Job, Outcome, Pipeline, TranslationResult, MAX_ATTEMPTS, WRITER_QUEUE,
};

fn texts(items: &[&str]) -> Vec<String> {
    items.iter().map(|s| s.to_string()).collect()
}

fn translated(id: usize, text: &str) -> Outcome {
    Outcome { id, result: TranslationResult::Translated(text.to_string()) }
}

fn failed(id: usize) -> Outcome {
    Outcome { id, result: TranslationResult::Failed }
}

#[test]
fn constants_have_their_values() {
    assert_eq!(MAX_ATTEMPTS, 4);
    assert_eq!(WRITER_QUEUE, 15_000);
}

#[test]
fn new_pipeline_counts_blank_texts_as_done() {
    let p = Pipeline::new(texts(&["Hello", "  \n\t", "", "World", "\u{00A0}"]));
    assert_eq!(p.total(), 5);
    assert_eq!(p.completed(), 3);
    assert!(!p.is_done());
    assert!(p.is_open(0));
    assert!(!p.is_open(1));
    assert!(!p.is_open(2));
    assert!(p.is_open(3));
    assert!(!p.is_open(4));
    assert!(!p.is_open(5));
}

#[test]
fn empty_pipeline_is_done_at_once() {
    let p = Pipeline::new(Vec::new());
    assert_eq!(p.total(), 0);
    assert!(p.is_done());
    assert!(p.pending_jobs().is_empty());
}

#[test]
fn pipeline_of_blank_texts_is_done_at_once() {
    let p = Pipeline::new(texts(&[" ", "\n"]));
    assert!(p.is_done());
    assert!(p.pending_jobs().is_empty());
}

#[test]
fn pending_jobs_are_the_open_nodes_in_order() {
    let p = Pipeline::new(texts(&["a", " ", "b", "c"]));
    let jobs = p.pending_jobs();
    assert_eq!(jobs.len(), 3);
    assert_eq!((jobs[0].id, jobs[0].text.as_str(), jobs[0].attempt), (0, "a", 0));
    assert_eq!((jobs[1].id, jobs[1].text.as_str(), jobs[1].attempt), (2, "b", 0));
    assert_eq!((jobs[2].id, jobs[2].text.as_str(), jobs[2].attempt), (3, "c", 0));
}

#[test]
fn translation_is_written_once() {
    let mut p = Pipeline::new(texts(&["one", "two"]));
    match p.on_outcome(translated(1, "zwei")) {
        Action::Written { id } => assert_eq!(id, 1),
        other => panic!("unexpected {:?}", other),
    }
    assert_eq!(p.content(1), "zwei");
    assert_eq!(p.content(0), "one");
    assert_eq!(p.completed(), 1);
    // A second answer for the same node is ignored and not counted.
    assert!(matches!(p.on_outcome(translated(1, "deux")), Action::Ignored));
    assert_eq!(p.content(1), "zwei");
    assert_eq!(p.completed(), 1);
    assert!(matches!(p.on_outcome(failed(1)), Action::Ignored));
    assert_eq!(p.retries(1), 0);
    assert_eq!(p.snapshot(1), "two");
}

#[test]
fn failure_is_retried_four_times_then_given_up() {
    let mut p = Pipeline::new(texts(&["one"]));
    for attempt in 1..=MAX_ATTEMPTS {
        match p.on_outcome(failed(0)) {
            Action::Resend(Job { id, text, attempt: a }) => {
                assert_eq!(id, 0);
                assert_eq!(text, "one");
                assert_eq!(a, attempt);
            }
            other => panic!("unexpected {:?}", other),
        }
        assert_eq!(p.retries(0), attempt);
        assert!(!p.is_done());
    }
    match p.on_outcome(failed(0)) {
        Action::Exhausted { id } => assert_eq!(id, 0),
        other => panic!("unexpected {:?}", other),
    }
    assert!(p.is_done());
    assert_eq!(p.content(0), "one");
    assert_eq!(p.retries(0), MAX_ATTEMPTS);
    // Nothing reopens the node.
    assert!(matches!(p.on_outcome(translated(0, "late")), Action::Ignored));
    assert_eq!(p.content(0), "one");
    assert_eq!(p.completed(), 1);
}

#[test]
fn retry_then_success_writes_the_translation() {
    let mut p = Pipeline::new(texts(&["one", "two"]));
    assert!(matches!(p.on_outcome(failed(0)), Action::Resend(_)));
    assert!(matches!(p.on_outcome(failed(0)), Action::Resend(_)));
    assert!(matches!(p.on_outcome(translated(0, "uno")), Action::Written { id: 0 }));
    assert_eq!(p.retries(0), 2);
    assert!(matches!(p.on_outcome(translated(1, "dos")), Action::Written { id: 1 }));
    assert!(p.is_done());
    assert_eq!(p.into_contents(), texts(&["uno", "dos"]));
}

#[test]
fn send_failure_finishes_the_node_unchanged() {
    let mut p = Pipeline::new(texts(&["one", "two"]));
    assert!(p.on_send_failure(0));
    assert_eq!(p.completed(), 1);
    assert!(!p.on_send_failure(0));
    assert_eq!(p.completed(), 1);
    assert!(!p.on_send_failure(7));
    assert!(matches!(p.on_outcome(translated(0, "uno")), Action::Ignored));
    assert_eq!(p.content(0), "one");
    // A resend that fails ends the node as well.
    assert!(matches!(p.on_outcome(failed(1)), Action::Resend(_)));
    assert!(p.on_send_failure(1));
    assert!(p.is_done());
    assert_eq!(p.into_contents(), texts(&["one", "two"]));
}

#[test]
fn outcome_for_unknown_node_is_ignored() {
    let mut p = Pipeline::new(texts(&["one"]));
    assert!(matches!(p.on_outcome(translated(1, "x")), Action::Ignored));
    assert!(matches!(p.on_outcome(failed(usize::MAX)), Action::Ignored));
    assert_eq!(p.completed(), 0);
    assert_eq!(p.content(0), "one");
}

#[test]
fn outcomes_in_any_order_touch_only_their_node() {
    let mut p = Pipeline::new(texts(&["a", "b", "c", "d"]));
    let order = [2usize, 0, 3, 1];
    for &id in order.iter() {
        let text = format!("T{}", id);
        assert!(matches!(p.on_outcome(translated(id, &text)), Action::Written { .. }));
    }
    assert!(p.is_done());
    assert_eq!(p.into_contents(), texts(&["T0", "T1", "T2", "T3"]));
}

#[test]
fn jobs_per_node_never_exceed_the_bound() {
    // One first job and at most MAX_ATTEMPTS retries, whatever arrives.
    let mut p = Pipeline::new(texts(&["a", "b"]));
    let mut sent = [1usize, 1usize];
    let mut events = 0;
    while !p.is_done() {
        let id = events % 2;
        if let Action::Resend(job) = p.on_outcome(failed(id)) {
            sent[job.id] += 1;
        }
        events += 1;
        assert!(events <= 2 * 2 * (MAX_ATTEMPTS + 1));
    }
    assert_eq!(sent, [MAX_ATTEMPTS + 1, MAX_ATTEMPTS + 1]);
    assert_eq!(events, 2 * (MAX_ATTEMPTS + 1));
    assert_eq!(p.completed(), p.total());
}

#[test]
fn outcome_from_reply() {
    let ok = Outcome::from_reply(3, Some("hola".to_string()));
    assert_eq!(ok.id, 3);
    assert!(matches!(ok.result, TranslationResult::Translated(ref s) if s == "hola"));
    let bad = Outcome::from_reply(4, None);
    assert_eq!(bad.id, 4);
    assert!(matches!(bad.result, TranslationResult::Failed));
}
