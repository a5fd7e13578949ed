use doc_loader::{
    ChunkSplitter, LoaderError, ReadEvent, Step, TxtLoader, TxtLoaderStream,
};

/// Drives a stream over a scripted sequence of read outcomes, the way a
/// file-backed driver would, and collects what it delivers.
fn drive(
    mut s: TxtLoaderStream<ChunkSplitter>,
    mut events: Vec<ReadEvent>,
) -> (Vec<String>, Option<LoaderError>) {
    events.reverse();
    let mut out: Vec<String> = Vec::new();
    loop {
        let step = s.poll_next();
        let step = match step {
            Step::NeedRead => s.on_read(events.pop().unwrap_or(ReadEvent::Eof)),
            other => other,
        };
        match step {
            Step::Item(d) => out.push(d.content),
            Step::Error(e) => {
                assert!(matches!(s.poll_next(), Step::Finished));
                return (out, Some(e));
            }
            Step::Finished => return (out, None),
            Step::NeedRead => {}
        }
    }
}

#[test]
fn three_lines_without_splitter_yield_three_documents() {
    let s = TxtLoaderStream::<ChunkSplitter>::new();
    let events = vec![
        ReadEvent::Line("alpha\n".to_string()),
        ReadEvent::Line("beta\n".to_string()),
        ReadEvent::Line("gamma\n".to_string()),
        ReadEvent::Eof,
    ];
    let (out, err) = drive(s, events);
    assert!(err.is_none());
    assert_eq!(
        out,
        vec!["alpha\n".to_string(), "beta\n".to_string(), "gamma\n".to_string()]
    );
}

#[test]
fn first_line_is_fully_split_before_the_next_is_read() {
    let mut s = TxtLoaderStream::new()
        .with_splitter(Box::new(ChunkSplitter::new(5, true)));
    assert!(matches!(s.poll_next(), Step::NeedRead));
    let step = s.on_read(ReadEvent::Line("hello world\n".to_string()));
    match step {
        Step::Item(d) => assert_eq!(d.content, "hello"),
        _ => panic!("expected the first chunk"),
    }
    match s.poll_next() {
        Step::Item(d) => assert_eq!(d.content, "worl"),
        _ => panic!("expected the second chunk"),
    }
    match s.poll_next() {
        Step::Item(d) => assert_eq!(d.content, "d"),
        _ => panic!("expected the third chunk"),
    }
    assert!(matches!(s.poll_next(), Step::NeedRead));
    assert!(matches!(s.on_read(ReadEvent::Eof), Step::Finished));
}

#[test]
fn chunks_of_successive_lines_arrive_in_source_order() {
    let s = TxtLoaderStream::new()
        .with_splitter(Box::new(ChunkSplitter::new(2, false)));
    let events = vec![
        ReadEvent::Line("abcd".to_string()),
        ReadEvent::Line("efg".to_string()),
        ReadEvent::Eof,
    ];
    let (out, err) = drive(s, events);
    assert!(err.is_none());
    assert_eq!(
        out,
        vec!["ab".to_string(), "cd".to_string(), "ef".to_string(), "g".to_string()]
    );
}

#[test]
fn mid_stream_read_failure_is_terminal_after_delivering_earlier_documents() {
    let s = TxtLoaderStream::<ChunkSplitter>::new();
    let events = vec![
        ReadEvent::Line("one\n".to_string()),
        ReadEvent::Line("two\n".to_string()),
        ReadEvent::Failure("disk fault".to_string()),
    ];
    let (out, err) = drive(s, events);
    assert_eq!(out, vec!["one\n".to_string(), "two\n".to_string()]);
    match err {
        Some(LoaderError::Read(m)) => assert_eq!(m, "disk fault"),
        _ => panic!("expected a read error"),
    }
}

#[test]
fn every_pull_after_the_end_repeats_the_terminal_signal() {
    let mut s = TxtLoaderStream::<ChunkSplitter>::new();
    assert!(matches!(s.poll_next(), Step::NeedRead));
    assert!(matches!(s.on_read(ReadEvent::Eof), Step::Finished));
    assert!(matches!(s.poll_next(), Step::Finished));
    assert!(matches!(s.poll_next(), Step::Finished));

    let mut f = TxtLoaderStream::<ChunkSplitter>::new();
    assert!(matches!(f.poll_next(), Step::NeedRead));
    assert!(matches!(
        f.on_read(ReadEvent::Failure("gone".to_string())),
        Step::Error(LoaderError::Read(_))
    ));
    assert!(matches!(f.poll_next(), Step::Finished));
    assert!(matches!(f.poll_next(), Step::Finished));
}

#[test]
fn empty_unit_contributes_no_documents() {
    let s = TxtLoaderStream::new()
        .with_splitter(Box::new(ChunkSplitter::new(2, false)));
    let events = vec![
        ReadEvent::Line(String::new()),
        ReadEvent::Line("ab".to_string()),
        ReadEvent::Eof,
    ];
    let (out, err) = drive(s, events);
    assert!(err.is_none());
    assert_eq!(out, vec!["ab".to_string()]);
}

#[test]
fn documents_carry_their_content_and_empty_metadata() {
    let mut s = TxtLoaderStream::<ChunkSplitter>::new();
    assert!(matches!(s.poll_next(), Step::NeedRead));
    match s.on_read(ReadEvent::Line("payload".to_string())) {
        Step::Item(d) => {
            assert_eq!(d.content, "payload");
            assert!(d.metadata.is_empty());
        }
        _ => panic!("expected a document"),
    }
}

#[test]
fn loader_remembers_its_filepath() {
    let loader = TxtLoader::new();
    assert_eq!(loader.filepath(), "");
    let loader = loader.with_filepath("./data/notes.txt");
    assert_eq!(loader.filepath(), "./data/notes.txt");
}
