//! Tests of the watcher, the resolver, the directory planner and the
//! dispatcher decisions.

use hls::decode::from_str;
use hls::downloader::{classify_response, worker_step, DownloadError, DownloadWorker, StealOutcome,
    WorkerStep};
use hls::fs::{mkdirp, parse_path_from_url, parent_of, target_dir, target_path, MkdirCache};
use hls::manifest::Line;
use hls::watcher::{FileAdd, ManifestWatcher};
use hls::work_queue::{FileType, WorkItem, WorkQueue};

fn segments(events: &[FileAdd]) -> Vec<String> {
    events
        .iter()
        .filter_map(|e| match e {
            FileAdd::Segment(u) => Some(u.clone()),
            FileAdd::Key(_) => None,
        })
        .collect()
}

fn keys(events: &[FileAdd]) -> Vec<String> {
    events
        .iter()
        .filter_map(|e| match e {
            FileAdd::Key(u) => Some(u.clone()),
            FileAdd::Segment(_) => None,
        })
        .collect()
}

fn lines_of(text: &str) -> Vec<Line> {
    from_str(text).expect("manifest parses")
}

#[test]
fn watcher_emits_segments_in_order() {
    // A simple VOD manifest: both segments, in manifest order.
    let mut w = ManifestWatcher::new();
    let events = w.update(lines_of(
        "#EXTM3U\n#EXT-X-VERSION:3\n#EXT-X-TARGETDURATION:10\n#EXTINF:9.009,\nhttp://h/a.ts\n#EXTINF:9.009,\nhttp://h/b.ts\n#EXT-X-ENDLIST\n",
    ));
    assert_eq!(
        segments(&events),
        vec!["http://h/a.ts".to_string(), "http://h/b.ts".to_string()]
    );
}

#[test]
fn watcher_emits_every_key_rotation() {
    // Key rotation: both keys are emitted, in order, and again on the
    // next update.
    let text = "#EXTM3U\n#EXT-X-KEY:METHOD=AES-128,URI=\"k1\"\n#EXTINF:9.0,\na.ts\n#EXT-X-KEY:METHOD=AES-128,URI=\"k2\"\n#EXTINF:9.0,\nb.ts\n";
    let mut w = ManifestWatcher::new();
    let events = w.update(lines_of(text));
    assert_eq!(keys(&events), vec!["k1".to_string(), "k2".to_string()]);
    assert_eq!(segments(&events), vec!["a.ts".to_string(), "b.ts".to_string()]);
    // keys re-emit on every update; segments do not
    let events2 = w.update(lines_of(text));
    assert_eq!(keys(&events2), vec!["k1".to_string(), "k2".to_string()]);
    assert_eq!(segments(&events2), Vec::<String>::new());
}

#[test]
fn watcher_live_update_emits_only_new_positions() {
    // A live update: three segments, then some roll off and new ones are
    // appended; only the new positions emit.
    let m1 = "#EXTM3U\n#EXTINF:9.0,\na.ts\n#EXTINF:9.0,\nb.ts\n#EXTINF:9.0,\nc.ts\n";
    let m2 = "#EXTM3U\n#EXTINF:9.0,\nc.ts\n#EXTINF:9.0,\nd.ts\n#EXTINF:9.0,\ne.ts\n";
    let mut w = ManifestWatcher::new();
    let e1 = w.update(lines_of(m1));
    assert_eq!(
        segments(&e1),
        vec!["a.ts".to_string(), "b.ts".to_string(), "c.ts".to_string()]
    );
    let e2 = w.update(lines_of(m2));
    // positions 0..3 were covered; only position 3 (d.ts at index 1 of
    // m2 plus offset) and beyond are new -- with three lines in m2 no
    // new position would appear, so m2 brings the count from 3 to 3:
    // nothing.  Append two more to see exactly the new ones.
    assert_eq!(segments(&e2), Vec::<String>::new());
    let m3 = "#EXTM3U\n#EXTINF:9.0,\nc.ts\n#EXTINF:9.0,\nd.ts\n#EXTINF:9.0,\ne.ts\n#EXTINF:9.0,\nf.ts\n#EXTINF:9.0,\ng.ts\n";
    let e3 = w.update(lines_of(m3));
    assert_eq!(segments(&e3), vec!["f.ts".to_string(), "g.ts".to_string()]);
}

#[test]
fn watcher_never_reemits_positions() {
    // At-most-once emission on concrete values: feeding the same
    // manifest twice emits its segments once.
    let m1 = "#EXTM3U\n#EXTINF:9.0,\na.ts\n";
    let mut w = ManifestWatcher::new();
    assert_eq!(segments(&w.update(lines_of(m1))), vec!["a.ts".to_string()]);
    assert_eq!(segments(&w.update(lines_of(m1))), Vec::<String>::new());
    // a shorter manifest emits nothing; the count never rewinds
    let empty = "#EXTM3U\n";
    assert_eq!(segments(&w.update(lines_of(empty))), Vec::<String>::new());
}

#[test]
fn resolver_keeps_absolute_urls() {
    // An absolute URL resolves independently of the base.
    let w1 = parse_path_from_url("http://h/", "http://x/p/a.ts", FileType::MediaSegment)
        .expect("resolves");
    let w2 = parse_path_from_url("http://other/", "http://x/p/a.ts", FileType::MediaSegment)
        .expect("resolves");
    assert_eq!(w1.remote_url, "http://x/p/a.ts");
    assert_eq!(w1.remote_url, w2.remote_url);
    assert_eq!(w1.local_path, "p/a.ts");
}

#[test]
fn resolver_joins_relative_urls() {
    // A manifest-relative path joins against the base.
    let w = parse_path_from_url("http://h/", "a.ts", FileType::MediaSegment).expect("resolves");
    assert_eq!(w.remote_url, "http://h/a.ts");
    assert_eq!(w.local_path, "a.ts");
    let w = parse_path_from_url("http://h/x/index.m3u8", "b.ts", FileType::Key).expect("resolves");
    assert_eq!(w.remote_url, "http://h/x/b.ts");
    assert_eq!(w.local_path, "x/b.ts");
}

#[test]
fn resolver_rejects_a_bad_base() {
    assert!(parse_path_from_url("not a url", "a.ts", FileType::MediaSegment).is_err());
}

#[test]
fn target_paths_are_rooted_per_kind() {
    // Local paths land under the per-kind subtree.
    let seg = WorkItem::new("a.ts".to_string(), "http://h/a.ts".to_string(),
        FileType::MediaSegment);
    let key = WorkItem::new("k/k1".to_string(), "http://h/k/k1".to_string(), FileType::Key);
    assert_eq!(target_path("out", &seg), "out/segments/a.ts");
    assert_eq!(target_path("out", &key), "out/keys/k/k1");
    assert_eq!(target_dir("out", &seg), "out/segments/");
    assert_eq!(target_dir("out", &key), "out/keys/k");
    assert!(target_dir("out", &key).starts_with("out"));
}

#[test]
fn parent_of_strips_the_last_component() {
    assert_eq!(parent_of("a/b/c.ts"), "a/b");
    assert_eq!(parent_of("c.ts"), "");
    assert_eq!(parent_of(""), "");
}

#[test]
fn mkdirp_creates_each_directory_once() {
    // The creation-count law on concrete values: repeated items cost one
    // creation per distinct directory.
    let mut cache = MkdirCache::new();
    let a1 = WorkItem::new("p/a.ts".to_string(), "u".to_string(), FileType::MediaSegment);
    let a2 = WorkItem::new("p/b.ts".to_string(), "u".to_string(), FileType::MediaSegment);
    let b = WorkItem::new("q/a.ts".to_string(), "u".to_string(), FileType::MediaSegment);
    let k = WorkItem::new("p/a.key".to_string(), "u".to_string(), FileType::Key);
    let mut real_creations = 0;
    for item in [&a1, &a2, &a1, &b, &k, &b] {
        if let Some(dir) = mkdirp(&mut cache, "out", item) {
            real_creations += 1;
            assert!(dir.starts_with("out/"));
        }
    }
    // distinct directories: out/segments/p, out/segments/q, out/keys/p
    assert_eq!(real_creations, 3);
}

#[test]
fn work_queue_is_fifo() {
    let mut q = WorkQueue::new();
    assert!(q.is_empty());
    assert!(q.take().is_none());
    q.add(WorkItem::new("a".to_string(), "ua".to_string(), FileType::MediaSegment));
    q.add(WorkItem::new("b".to_string(), "ub".to_string(), FileType::Key));
    assert!(!q.is_empty());
    let first = q.take().expect("first");
    assert_eq!(first.local_path, "a");
    let second = q.take().expect("second");
    assert_eq!(second.local_path, "b");
    assert!(q.is_empty());
}

#[test]
fn worker_steps_follow_the_steal_outcome() {
    let item = WorkItem::new("a".to_string(), "u".to_string(), FileType::MediaSegment);
    assert_eq!(worker_step(StealOutcome::Empty, true), WorkerStep::SleepThenStop);
    assert_eq!(worker_step(StealOutcome::Empty, false), WorkerStep::SleepThenRetry);
    assert_eq!(worker_step(StealOutcome::Retry, false), WorkerStep::SleepThenRetry);
    assert_eq!(worker_step(StealOutcome::Retry, true), WorkerStep::SleepThenRetry);
    assert_eq!(
        worker_step(StealOutcome::Item(item.clone()), false),
        WorkerStep::Process(item)
    );
}

#[test]
fn non_success_status_is_recorded_not_fatal() {
    // A 404 is recorded against the item with its URL; success passes.
    assert_eq!(
        classify_response(404, "http://h/a.ts"),
        Err(DownloadError::HttpStatus(404, "http://h/a.ts".to_string()))
    );
    assert_eq!(classify_response(200, "http://h/a.ts"), Ok(()));
    assert_eq!(classify_response(204, "u"), Ok(()));
    assert!(classify_response(301, "u").is_err());
    assert!(classify_response(500, "u").is_err());
}

#[test]
fn download_worker_holds_its_configuration() {
    let w = DownloadWorker::new("out".to_string(), 4);
    assert_eq!(w.output_dir, "out");
    assert_eq!(w.worker_count, 4);
}
