use blockfetch::manager::WorkerMessage;
use blockfetch::util::Url;
use blockfetch::worker::{range_headers, DownloadWorker, WorkerError};

fn url() -> Url {
    Url::parse("http://example.com/file").unwrap()
}

#[test]
fn ranges_of_blocks() {
    let range = |id: usize| {
        let mut worker = DownloadWorker::new(3, url(), None, 20, 8);
        let request = worker.run(&WorkerMessage::Download(id));
        assert_eq!(request.url.text, "http://example.com/file");
        assert_eq!(request.headers.len(), 1);
        request.headers.get("range").unwrap().to_str().unwrap().to_string()
    };
    assert_eq!(range(0), "bytes=0-7");
    assert_eq!(range(1), "bytes=8-15");
    assert_eq!(range(2), "bytes=16-19");
    assert_eq!(range(3), "bytes=24-19");
}

#[test]
fn last_block_may_be_full() {
    let worker = DownloadWorker::new(0, url(), None, 16, 8);
    assert_eq!(worker.download_block(1).headers.get("range").unwrap(), "bytes=8-15");
}

#[test]
fn request_logs_the_user_in() {
    let worker = DownloadWorker::new(0, url(), Some("Basic YQ==".to_string()), 16, 8);
    let request = worker.download_block(0);
    assert_eq!(request.headers.len(), 2);
    assert_eq!(request.headers.get("authorization").unwrap(), "Basic YQ==");
    assert_eq!(request.headers.get("range").unwrap(), "bytes=0-7");
}

#[test]
fn what_can_be_requested() {
    let worker = |auth: Option<&str>, file_len: u64, block_size: u64| {
        DownloadWorker::new(0, url(), auth.map(|a| a.to_string()), file_len, block_size)
    };
    assert!(worker(None, 16, 8).can_request(1));
    assert!(!worker(None, 0, 8).can_request(0));
    assert!(!worker(None, 16, 0).can_request(0));
    assert!(worker(None, u64::MAX, 1 << 63).can_request(0));
    assert!(!worker(None, u64::MAX, 1 << 63).can_request(1));
    assert!(!worker(None, u64::MAX, 1 << 63).can_request(2));
    assert!(worker(Some("a\tb"), 16, 8).can_request(0));
    assert!(!worker(Some("a\nb"), 16, 8).can_request(0));
}

#[test]
fn range_header_of_great_numbers() {
    let headers = range_headers(18446744073709551614, 18446744073709551615);
    assert_eq!(headers.get("range").unwrap(), "bytes=18446744073709551614-18446744073709551615");
}

#[test]
fn only_ranges_are_accepted() {
    let worker = DownloadWorker::new(0, url(), None, 16, 8);
    for status in [100, 200, 204, 205, 207, 404, 500] {
        match worker.accept_response(status) {
            Err(WorkerError::UnexpectedResponse(code)) => assert_eq!(code, status),
            _ => panic!("{} was accepted", status),
        }
    }
    assert_eq!(worker.accept_response(206).ok().unwrap().len(), 0);
}

#[test]
fn chunks_make_the_block() {
    let mut worker = DownloadWorker::new(3, url(), None, 100, 64);
    worker.run(&WorkerMessage::Download(1));
    let mut buffer = worker.accept_response(206).ok().unwrap();
    worker.receive_chunk(&mut buffer, b"hello ");
    worker.receive_chunk(&mut buffer, b"");
    assert!(worker.try_receive_chunk(&mut buffer, b"world"));
    let long = vec![7u8; 1000];
    worker.receive_chunk(&mut buffer, &long);
    assert_eq!(buffer.len(), 1011);
    match worker.finish_block(Ok(buffer)) {
        (delta, WorkerMessage::Finished(id, block, bytes)) => {
            assert_eq!(delta, 1011);
            assert_eq!(id, 3);
            assert_eq!(block, 1);
            assert_eq!(&bytes[..11], b"hello world");
            assert_eq!(&bytes[11..], &long[..]);
        }
        other => panic!("{:?}", other),
    }
}

#[test]
fn count_starts_anew_with_each_block() {
    let mut worker = DownloadWorker::new(3, url(), None, 100, 4);
    worker.run(&WorkerMessage::Download(0));
    let mut buffer = worker.accept_response(206).ok().unwrap();
    worker.receive_chunk(&mut buffer, b"abc");
    let failed = worker.finish_block(Err(WorkerError::ConnectionError("gone".to_string())));
    match failed {
        (3, WorkerMessage::Failed(3, 0, WorkerError::ConnectionError(text))) => assert_eq!(text, "gone"),
        other => panic!("{:?}", other),
    }
    worker.run(&WorkerMessage::Download(0));
    let mut buffer = worker.accept_response(206).ok().unwrap();
    worker.receive_chunk(&mut buffer, b"de");
    assert_eq!(worker.finish_block(Ok(buffer)).0, 2);
    assert_eq!(worker.delta(), 5);
}

#[test]
fn worker_downloads_one_block_after_the_other() {
    let mut worker = DownloadWorker::new(3, url(), None, 16, 8);
    let first = WorkerMessage::Download(0);
    let second = WorkerMessage::Download(1);
    assert!(!worker.accepts(&WorkerMessage::Progress(0, 1)));
    assert!(worker.accepts(&first));
    assert_eq!(worker.current(), None);
    assert_eq!(worker.delta(), 0);
    worker.run(&first);
    assert_eq!(worker.current(), Some(0));
    assert!(!worker.accepts(&first));
    assert!(!worker.accepts(&second));
    worker.finish_block(Err(WorkerError::UnexpectedResponse(503)));
    assert_eq!(worker.current(), None);
    assert!(worker.accepts(&second));
}

#[test]
fn each_request_gets_its_reply() {
    let mut worker = DownloadWorker::new(3, url(), None, 100, 4);
    let mut replies = Vec::new();
    for block in [5, 2, 2, 9] {
        worker.run(&WorkerMessage::Download(block));
        let mut buffer = worker.accept_response(206).ok().unwrap();
        worker.receive_chunk(&mut buffer, &[block as u8, 1]);
        let result = if replies.len() == 1 {
            Err(WorkerError::ConnectionError("gone".to_string()))
        } else {
            Ok(buffer)
        };
        replies.push(worker.finish_block(result).1);
    }
    assert_eq!(replies.len(), 4);
    for (reply, block) in replies.iter().zip([5, 2, 2, 9]) {
        match reply {
            WorkerMessage::Finished(3, id, bytes) => {
                assert_eq!(*id, block);
                assert_eq!(&bytes[..], &[block as u8, 1]);
            }
            WorkerMessage::Failed(3, 2, WorkerError::ConnectionError(text)) => assert_eq!(text, "gone"),
            other => panic!("{:?}", other),
        }
    }
    assert!(matches!(replies[1], WorkerMessage::Failed(..)));
    assert!(matches!(replies[2], WorkerMessage::Finished(..)));
}

#[test]
fn notices_of_failures() {
    let error = WorkerError::ConnectionError("Error(Connect)".to_string());
    assert_eq!(
        error.notice(2, 17),
        "\r=> Worker 2 failed while downloading block 17 with error Error(Connect), retrying later"
    );
    let error = WorkerError::UnexpectedResponse(503);
    assert_eq!(error.notice(2, 17), "\n=> Unexpected response from server: 503 Service Unavailable");
}
