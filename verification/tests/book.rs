use epub_translator::book::{
    begin_translation, collect_text_nodes, count_chars, finish_translation, write_text_nodes,
    Document,
};
use epub_translator::deepl::{get_test_config, mock_translate, translate_request, translated_text};
use epub_translator::dispatcher::Dispatcher;
use epub_translator::pipeline::{Action, Job, Outcome};
use epub_translator::xhtml::{get_document_node, get_text_nodes, serialize_document_to_string};

fn document(path: &str, content: &str) -> Document {
    match get_document_node(content) {
        Ok(node) => Document { node, path: path.to_string() },
        Err(e) => panic!("the document does not parse: {:?}", e),
    }
}

fn written(document: &Document) -> String {
    serialize_document_to_string(&document.node).expect("a serialised document")
}

/// Answers a job as the stand-in service would.
fn answer(job: &Job, target_lang: &str) -> Outcome {
    let call = translate_request(&get_test_config(), &job.text, target_lang);
    Outcome::from_reply(job.id, translated_text(mock_translate(&call.body)))
}

/// Runs a whole translation against the stand-in service, with at most
/// `concurrent_requests` requests under way, and returns the most that
/// were under way at once.
fn translate(documents: &mut Vec<Document>, target_lang: &str, concurrent_requests: usize) -> usize {
    let mut pipeline = begin_translation(documents);
    let mut dispatcher = Dispatcher::new(concurrent_requests);
    let mut running: Vec<Job> = Vec::new();
    let mut most = 0;
    for job in pipeline.pending_jobs() {
        if let Some(job) = dispatcher.submit(job) {
            running.push(job);
        }
        most = most.max(dispatcher.in_flight());
    }
    while !pipeline.is_done() {
        // The worker that started last finishes first: answers come out of order.
        let job = running.pop().expect("a request under way");
        let outcome = answer(&job, target_lang);
        if let Some(next) = dispatcher.finished() {
            running.push(next);
        }
        if let Action::Resend(job) = pipeline.on_outcome(outcome) {
            if let Some(job) = dispatcher.submit(job) {
                running.push(job);
            }
        }
        most = most.max(dispatcher.in_flight());
    }
    finish_translation(documents, pipeline);
    most
}

#[test]
fn single_text_node_is_translated_in_place() {
    let mut documents =
        vec![document("a.xhtml", "<html><head></head><body><p>Hello</p></body></html>")];
    translate(&mut documents, "ES", 1);
    assert_eq!(
        written(&documents[0]),
        "<html><head></head><body><p>--|Hello|-- Translated to ES</p></body></html>"
    );
    assert_eq!(documents[0].path, "a.xhtml");
}

#[test]
fn ten_files_are_translated_node_for_node() {
    let mut documents = Vec::new();
    let mut expected = Vec::new();
    for file in 0..10 {
        let mut body = String::new();
        for node in 0..=file {
            body.push_str(&format!("<p>text {} of file {}</p>", node, file));
            expected.push(format!("--|text {} of file {}|-- Translated to ES", node, file));
        }
        let content = format!(
            "<html><head><style>p {{ x: {}; }}</style></head><body>{}</body></html>",
            file, body
        );
        documents.push(document(&format!("OEBPS/{}.xhtml", file), &content));
    }
    let before = collect_text_nodes(&documents);
    assert_eq!(before.len(), 55);
    let most = translate(&mut documents, "ES", 1000);
    assert_eq!(most, 55);
    let after = collect_text_nodes(&documents);
    assert_eq!(after, expected);
    for (file, document) in documents.iter().enumerate() {
        assert_eq!(document.path, format!("OEBPS/{}.xhtml", file));
        assert_eq!(get_text_nodes(&document.node).len(), file + 1);
        assert!(written(document).contains(&format!("<style>p {{ x: {}; }}</style>", file)));
    }
}

#[test]
fn concurrency_stays_within_the_limit() {
    let mut documents = vec![
        document("a.xhtml", "<html><body><p>a</p><p>b</p><p>c</p></body></html>"),
        document("b.xhtml", "<html><body><p>d</p><p>e</p></body></html>"),
    ];
    let most = translate(&mut documents, "DE", 2);
    assert_eq!(most, 2);
    assert_eq!(
        collect_text_nodes(&documents),
        vec![
            "--|a|-- Translated to DE",
            "--|b|-- Translated to DE",
            "--|c|-- Translated to DE",
            "--|d|-- Translated to DE",
            "--|e|-- Translated to DE",
        ]
    );
}

#[test]
fn blank_nodes_are_left_as_they_are() {
    let mut documents =
        vec![document("a.xhtml", "<html><head></head><body>\n<p>Hi</p>\n  </body></html>")];
    assert_eq!(collect_text_nodes(&documents), vec!["\n", "Hi", "\n  "]);
    let pipeline = begin_translation(&documents);
    assert_eq!(pipeline.total(), 3);
    assert_eq!(pipeline.completed(), 2);
    assert_eq!(pipeline.pending_jobs().len(), 1);
    translate(&mut documents, "ES", 4);
    assert_eq!(
        written(&documents[0]),
        "<html><head></head><body>\n<p>--|Hi|-- Translated to ES</p>\n  </body></html>"
    );
}

#[test]
fn texts_go_back_into_their_own_documents() {
    let mut documents = vec![
        document("a.xhtml", "<html><body><p>a</p><p>b</p></body></html>"),
        document("empty.xhtml", "<html><body></body></html>"),
        document("c.xhtml", "<html><body><p>c</p></body></html>"),
    ];
    let texts: Vec<String> = ["1", "2", "3"].iter().map(|s| s.to_string()).collect();
    write_text_nodes(&mut documents, &texts);
    assert_eq!(get_text_nodes(&documents[0].node), vec!["1", "2"]);
    assert!(get_text_nodes(&documents[1].node).is_empty());
    assert_eq!(get_text_nodes(&documents[2].node), vec!["3"]);
}

#[test]
fn book_without_text_is_done_at_once() {
    let mut documents = vec![document("a.xhtml", "<html><body></body></html>")];
    let pipeline = begin_translation(&documents);
    assert!(pipeline.is_done());
    finish_translation(&mut documents, pipeline);
    assert_eq!(written(&documents[0]), "<html><head></head><body></body></html>");
    let mut none: Vec<Document> = Vec::new();
    let pipeline = begin_translation(&none);
    assert!(pipeline.is_done());
    finish_translation(&mut none, pipeline);
}

#[test]
fn characters_are_counted_in_bytes() {
    let texts: Vec<String> = ["abc", "", "é", "✓✓"].iter().map(|s| s.to_string()).collect();
    assert_eq!(count_chars(&texts), 3 + 0 + 2 + 6);
    assert_eq!(count_chars(&Vec::new()), 0);
    let documents = vec![document("a.xhtml", "<html><body><p>Hello</p><p>wörld</p></body></html>")];
    assert_eq!(count_chars(&collect_text_nodes(&documents)), 11);
}
