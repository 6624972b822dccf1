use iris::net_dns::accept_reply;
use iris::net_dns::error_reply;
use iris::net_dns::is_forwarded;
use iris::net_dns::native_reply;
use iris::net_dns::question;
use iris::net_dns::reply_or_failure;
use iris::net_dns::DnsProxy;
use iris::net_dns::Request;
use iris::net_dns::QUEUE_MAX;
use iris::net_addr::Ipv4Addr;

fn query(kind: u16) -> Vec<u8> {
    let mut q = vec![0x12, 0x34, 1, 0, 0, 1, 0, 0, 0, 0, 0, 0];
    q.extend_from_slice(b"\x07example\x03com\0");
    q.extend_from_slice(&kind.to_be_bytes());
    q.extend_from_slice(&[0, 1]);
    q
}
#[test]
fn parses_names_and_record_types() {
    for kind in [1, 12, 15, 28, 16] {
        let q = query(kind);
        assert_eq!(
            question(&q),
            Some(("example.com.".into(), kind, 1, q.len()))
        );
    }
}
#[test]
fn rejects_malformed_questions() {
    let q = query(1);
    for end in 0..q.len() {
        assert!(question(&q[..end]).is_none());
    }
    let mut q = q;
    q[12] = 0xc0;
    assert!(question(&q).is_none());
    q[12] = 64;
    assert!(question(&q).is_none());
}
#[test]
fn negative_reply_preserves_question_and_id() {
    let q = query(12);
    for code in [0, 2, 3] {
        let r = error_reply(&q, code).unwrap();
        assert_eq!(&r[..2], &q[..2]);
        assert_eq!(&r[12..], &q[12..]);
        assert_eq!(r[2], 0x81);
        assert_eq!(r[3], 0x80 | code);
        assert_eq!(&r[6..12], &[0; 6]);
    }
}

fn request(port: u16, query: Vec<u8>) -> Request {
    Request {
        client_mac: [0; 6],
        client_ip: Ipv4Addr::new(127, 0, 0, 1),
        server_ip: Ipv4Addr::new(8, 8, 8, 8),
        client_port: port,
        query,
    }
}

#[test]
fn names_are_escaped() {
    let mut q = vec![0, 1, 1, 0, 0, 1, 0, 0, 0, 0, 0, 0];
    q.extend_from_slice(b"\x04a.b_\0\0\x0c\0\x01");
    assert_eq!(question(&q), Some(("a\\046b_.".to_string(), 12, 1, q.len())));
    let mut root = vec![0, 1, 1, 0, 0, 1, 0, 0, 0, 0, 0, 0];
    root.extend_from_slice(&[0, 0, 2, 0, 1]);
    assert_eq!(question(&root), Some((".".to_string(), 2, 1, 17)));
}

#[test]
fn long_names_are_refused() {
    let build = |labels: usize| {
        let mut q = vec![0, 1, 1, 0, 0, 1, 0, 0, 0, 0, 0, 0];
        for _ in 0..labels {
            q.push(63);
            q.extend_from_slice(&[b'a'; 63]);
        }
        q.push(0);
        q.extend_from_slice(&[0, 1, 0, 1]);
        q
    };
    assert!(question(&build(3)).is_some());
    assert!(question(&build(4)).is_none());
}

#[test]
fn replies_are_not_taken_for_questions() {
    let q = query(1);
    let r = error_reply(&q, 3).unwrap();
    assert!(question(&r).is_none());
    assert!(accept_reply(&q, &r));
}

#[test]
fn foreign_and_malformed_replies_are_refused() {
    let q = query(1);
    let r = error_reply(&q, 0).unwrap();
    let mut other = r.clone();
    other[1] ^= 1;
    assert!(!accept_reply(&q, &other));
    assert!(!accept_reply(&q, &q), "a query is no reply");
    assert!(!accept_reply(&q, &r[..11]));
    assert!(is_forwarded(&q) && !is_forwarded(&q[..11]));
}

#[test]
fn resolver_results_become_replies() {
    let q = query(1);
    let mut buffer = vec![0u8; 512];
    assert!(native_reply(&q, &buffer, -1).is_none());
    buffer[2] = 0x81;
    buffer[3] = 0x83;
    assert_eq!(native_reply(&q, &buffer, -1), error_reply(&q, 3));
    let answer = native_reply(&q, &buffer, 40).unwrap();
    assert_eq!(answer.len(), 40);
    assert_eq!(&answer[..2], &q[..2]);
    assert_eq!(&answer[2..], &buffer[2..40]);
    let cut = native_reply(&q, &buffer, 600).unwrap();
    assert_eq!(cut[2], 0x83);
    assert_eq!(&cut[12..], &q[12..]);
    assert!(native_reply(&q[..11], &buffer, 40).is_none());
}

#[test]
fn failures_are_answered() {
    let q = query(1);
    assert_eq!(reply_or_failure(&q, Some(vec![1, 2])), Some(vec![1, 2]));
    assert_eq!(reply_or_failure(&q, None), error_reply(&q, 2));
    assert_eq!(reply_or_failure(&q[..11], None), None);
}

#[test]
fn requests_and_replies_keep_their_order_and_their_addresses() {
    let mut proxy = DnsProxy::new();
    assert!(proxy.poll().is_none() && proxy.next_request().is_none());
    proxy.submit(request(1234, query(1)));
    proxy.submit(request(1235, query(12)));
    let first = proxy.next_request().unwrap();
    assert_eq!(first.client_port, 1234);
    let expected = error_reply(&first.query, 3).unwrap();
    assert!(proxy.finish(first, expected.clone()).is_none());
    let (back, reply) = proxy.poll().unwrap();
    assert_eq!(reply, expected);
    assert_eq!(back.server_ip, Ipv4Addr::new(8, 8, 8, 8));
    assert_eq!(back.client_port, 1234);
    assert_eq!(proxy.next_request().unwrap().client_port, 1235);
}

#[test]
fn both_queues_are_bounded() {
    let mut proxy = DnsProxy::new();
    for port in 0..(QUEUE_MAX as u16 + 3) {
        proxy.submit(request(port, vec![]));
    }
    let mut taken = 0;
    while let Some(r) = proxy.next_request() {
        assert_eq!(r.client_port, taken);
        taken += 1;
    }
    assert_eq!(taken as usize, QUEUE_MAX);
    for port in 0..QUEUE_MAX as u16 {
        assert!(proxy.finish(request(port, vec![]), vec![1]).is_none());
    }
    let (back, _) = proxy.finish(request(99, vec![]), vec![1]).unwrap();
    assert_eq!(back.client_port, 99);
}
