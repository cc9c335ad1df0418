use flood::recursion::{is_directory_response, RecursionQueue};

#[test]
fn test_is_directory_redirect_with_trailing_slash() {
    assert!(is_directory_response(
        301,
        Some("https://example.com/images/"),
        "/images"
    ));
}
#[test]
fn test_is_directory_redirect_without_trailing_slash() {
    assert!(!is_directory_response(
        301,
        Some("https://example.com/other"),
        "/images"
    ));
}
#[test]
fn test_is_directory_200_with_trailing_slash() {
    assert!(is_directory_response(200, None, "/images/"));
}
#[test]
fn test_is_not_directory_regular_file() {
    assert!(!is_directory_response(200, None, "/index.html"));
}
#[test]
fn test_queue_add_and_pop() {
    let mut queue = RecursionQueue::new(3, vec![]);
    assert!(queue.add("/images/", 0));
    assert_eq!(queue.pop(), Some(("/images/".to_string(), 1)));
    assert_eq!(queue.pop(), None);
}
#[test]
fn test_queue_respects_max_depth() {
    let mut queue = RecursionQueue::new(2, vec![]);
    assert!(queue.add("/a/", 0));
    assert!(queue.add("/b/", 1));
    assert!(!queue.add("/c/", 2));
}
#[test]
fn test_queue_respects_exclude_patterns() {
    let mut queue = RecursionQueue::new(3, vec!["static".to_string(), "assets".to_string()]);
    assert!(!queue.add("/static/", 0));
    assert!(!queue.add("/assets/", 0));
    assert!(queue.add("/admin/", 0));
}
#[test]
fn test_queue_deduplicates() {
    let mut queue = RecursionQueue::new(3, vec![]);
    assert!(queue.add("/images/", 0));
    assert!(!queue.add("/images/", 0));
    assert_eq!(queue.len(), 1);
}
#[test]
fn test_queue_pending_count() {
    let mut queue = RecursionQueue::new(3, vec![]);
    queue.add("/a/", 0);
    queue.add("/b/", 0);
    queue.add("/c/", 0);
    assert_eq!(queue.len(), 3);
    queue.pop();
    assert_eq!(queue.len(), 2);
}

#[test]
fn redirect_302_and_missing_location() {
    assert!(is_directory_response(302, Some("/x/"), "/x"));
    // a redirect without a location falls back to the 200 rule, which fails
    assert!(!is_directory_response(301, None, "/x/"));
    assert!(!is_directory_response(404, None, "/x/"));
}

#[test]
fn popped_path_is_refused_again() {
    let mut queue = RecursionQueue::new(5, vec![]);
    assert!(queue.add("/a/", 0));
    assert_eq!(queue.pop(), Some(("/a/".to_string(), 1)));
    assert!(!queue.add("/a/", 2));
    assert_eq!(queue.total_seen(), 1);
    assert!(queue.is_empty());
}

#[test]
fn queue_is_fifo_and_drains_in_order() {
    let mut queue = RecursionQueue::new(5, vec![]);
    assert!(queue.add("/a/", 0));
    assert!(queue.add("/b/", 3));
    assert!(queue.add("/c/", 1));
    assert_eq!(queue.pop(), Some(("/a/".to_string(), 1)));
    let rest = queue.drain_pending();
    assert_eq!(rest, vec![("/b/".to_string(), 4), ("/c/".to_string(), 2)]);
    assert!(queue.is_empty());
    assert_eq!(queue.total_seen(), 3);
}

#[test]
fn depth_zero_queue_accepts_nothing() {
    let mut queue = RecursionQueue::new(0, vec![]);
    assert!(!queue.add("/a/", 0));
    assert_eq!(queue.total_seen(), 0);
}

#[test]
fn pending_never_exceeds_seen() {
    let mut q = RecursionQueue::new(3, vec!["skip".to_string()]);
    let adds = [("a/", 0u32), ("b/", 1), ("a/", 0), ("skip/", 0), ("c/", 3), ("d/", 2)];
    let mut accepted = 0;
    for (p, d) in adds {
        if q.add(p, d) {
            accepted += 1;
        }
        assert!(q.len() <= q.total_seen());
    }
    assert_eq!(q.total_seen(), accepted);
    q.pop();
    assert_eq!(q.total_seen(), accepted);
    assert!(q.len() <= q.total_seen());
    q.drain_pending();
    assert_eq!(q.total_seen(), accepted);
}
