//! The DNS proxy of the gateway: what a query asks, which replies are accepted, and
//! the queues between the gateway and the thread that resolves.
//!
//! Resolving may take seconds. It runs on a thread of its own, so that it cannot
//! stall the gateway; both queues are bounded.
use vstd::prelude::*;
use crate::net_addr::Ipv4Addr;
use crate::text::push_padded;

verus! {

// ---------------------------------------------------------------------------
// Questions
// ---------------------------------------------------------------------------

/// Whether a byte stands for itself in a printed name.
pub open spec fn plain(b: u8) -> bool {
    (48 <= b <= 57) || (65 <= b <= 90) || (97 <= b <= 122) || b == 45 || b == 95
}

/// A byte of a label as it is printed: itself, or a backslash and its three decimal
/// digits.
pub open spec fn printed(b: u8) -> Seq<char> {
    if plain(b) {
        seq![b as char]
    } else {
        seq!['\\'] + crate::text::padded(b as nat, 3, '0')
    }
}

/// The first `n` bytes of a label as they are printed.
pub open spec fn printed_label(label: Seq<u8>, n: int) -> Seq<char>
    decreases n,
{
    if n <= 0 || n > label.len() {
        seq![]
    } else {
        printed_label(label, n - 1) + printed(label[n - 1])
    }
}

/// Bytes of the header.
pub const HEADER: usize = 12;

/// Longest label.
pub const LABEL_MAX: usize = 63;

/// Bytes that the labels of a name may take, their lengths included.
pub const NAME_MAX: usize = 254;

/// The labels that start at `pos`, printed with a dot behind each, and where the name
/// ends. None if a label is cut off, is too long, or is a compression pointer.
pub open spec fn labels(q: Seq<u8>, pos: int) -> Option<(Seq<char>, int)>
    decreases q.len() - pos,
{
    if pos < 0 || pos >= q.len() {
        None
    } else if q[pos] == 0 {
        Some((seq![], pos + 1))
    } else {
        let end = pos + 1 + q[pos];
        if q[pos] > LABEL_MAX || end - HEADER > NAME_MAX || end > q.len() {
            None
        } else {
            match labels(q, end) {
                Some((rest, after)) => Some(
                    (
                        printed_label(q.subrange(pos + 1, end), q[pos] as int).push('.') + rest,
                        after,
                    ),
                ),
                None => None,
            }
        }
    }
}

/// The number in two bytes, the high one first.
pub open spec fn be16(q: Seq<u8>, pos: int) -> int {
    q[pos] * 256 + q[pos + 1]
}

/// The question of a query: its name, type and class, and where it ends. None unless
/// the query is an ordinary one with one question.
pub open spec fn asked(q: Seq<u8>) -> Option<(Seq<char>, int, int, int)> {
    if q.len() < HEADER || q[2] & 0xf8 != 0 || q[4] != 0 || q[5] != 1 {
        None
    } else {
        match labels(q, HEADER as int) {
            Some((name, pos)) => if pos + 4 > q.len() {
                None
            } else {
                Some(
                    (
                        if name.len() == 0 {
                            seq!['.']
                        } else {
                            name
                        },
                        be16(q, pos),
                        be16(q, pos + 2),
                        pos + 4,
                    ),
                )
            },
            None => None,
        }
    }
}

/// A letter, a digit, `-` and `_` are printed as themselves; any other byte as a backslash
/// and its value in three digits.
pub proof fn law_printed_bytes(b: u8)
    ensures
        ({
            let c = b as int;
            let itself = 'a' as int <= c <= 'z' as int || 'A' as int <= c <= 'Z' as int || '0' as int
                <= c <= '9' as int || c == '-' as int || c == '_' as int;
            &&& itself ==> printed(b) == seq![b as char]
            &&& !itself ==> {
                &&& printed(b).len() == 4
                &&& printed(b)[0] == '\\'
                &&& 100 * (printed(b)[1] as int - 48) + 10 * (printed(b)[2] as int - 48) + (
                printed(b)[3] as int - 48) == b
            }
        }),
{
    if !plain(b) {
        let n = b as nat;
        let p = crate::text::padded(n, 3, '0');
        crate::text::law_padding(n, 3, '0');
        crate::text::law_decimal_digits(n);
        crate::text::law_decimal_digits(n / 10);
        crate::text::law_decimal_digits(n / 10 / 10);
        let d = crate::text::decimal(n);
        assert(printed(b) =~= seq!['\\'] + p);
        assert(p.skip(p.len() - d.len()) =~= d);
        assert(p[2] == p.skip(p.len() - d.len()).last());
        if n >= 10 {
            assert(d.drop_last().last() == d[d.len() - 2]);
            assert(p[1] == p.skip(p.len() - d.len())[d.len() - 2]);
        }
        if n >= 100 {
            assert(d.drop_last().drop_last().last() == d[d.len() - 3]);
            assert(p[0] == p.skip(p.len() - d.len())[d.len() - 3]);
        }
    }
}

/// How a name is read: a zero byte ends it. A byte from 1 to 63 stands before that many bytes
/// of a label, which are printed with a dot behind them and in front of the rest of the name;
/// with the labels before it, the label may reach 254 bytes behind the header and no further.
/// Anything else is no name.
pub proof fn law_how_names_are_read(q: Seq<u8>, pos: int)
    requires
        12 <= pos,
    ensures
        pos >= q.len() ==> labels(q, pos) is None,
        pos < q.len() && q[pos] == 0 ==> labels(q, pos) == Some((Seq::<char>::empty(), pos + 1)),
        pos < q.len() && q[pos] > 63 ==> labels(q, pos) is None,
        pos < q.len() && 1 <= q[pos] && (pos + 1 + q[pos] > q.len() || pos + 1 + q[pos] > 266)
            ==> labels(q, pos) is None,
        pos < q.len() && 1 <= q[pos] <= 63 && pos + 1 + q[pos] <= q.len() && pos + 1 + q[pos]
            <= 266 ==> match labels(q, pos + 1 + q[pos]) {
            Some((rest, after)) => {
                let label = q.subrange(pos + 1, pos + 1 + q[pos]);
                &&& labels(q, pos) matches Some((name, end)) && end == after && name
                    == printed_label(label, label.len() as int) + seq!['.'] + rest
            },
            None => labels(q, pos) is None,
        },
{
    if pos < q.len() && 1 <= q[pos] <= 63 && pos + 1 + q[pos] <= q.len() && pos + 1 + q[pos] <= 266
        && labels(q, pos + 1 + q[pos]) is Some {
        let label = q.subrange(pos + 1, pos + 1 + q[pos]);
        let text = printed_label(label, label.len() as int);
        assert(text.push('.') =~= text + seq!['.']);
    }
}

/// The text of a label is the text of its bytes, one behind the other.
pub proof fn law_labels_are_printed_byte_by_byte(label: Seq<u8>, b: u8)
    ensures
        printed_label(seq![], 0) == Seq::<char>::empty(),
        printed_label(label.push(b), label.len() as int + 1) == printed_label(
            label,
            label.len() as int,
        ) + printed(b),
{
    lemma_printed_prefix(label.push(b), label, label.len() as int);
}

proof fn lemma_printed_prefix(a: Seq<u8>, b: Seq<u8>, n: int)
    requires
        0 <= n <= a.len(),
        n <= b.len(),
        forall|i: int| 0 <= i < n ==> a[i] == b[i],
    ensures
        printed_label(a, n) == printed_label(b, n),
    decreases n,
{
    if n > 0 {
        lemma_printed_prefix(a, b, n - 1);
    }
}

/// Which queries have a question, and where its parts stand: the query has a whole header,
/// its third byte is below 8, it counts one question, and behind the name four bytes are left.
/// They are the type and the class, the high byte first, and end the question. The root is
/// named by a dot.
pub proof fn law_where_a_question_stands(q: Seq<u8>)
    ensures
        asked(q) is Some <==> {
            &&& q.len() >= 12 && q[2] < 8 && q[4] == 0 && q[5] == 1
            &&& labels(q, 12) matches Some((_, pos)) && pos + 4 <= q.len()
        },
        asked(q) matches Some((name, kind, class, end)) ==> {
            &&& 17 <= end <= q.len()
            &&& labels(q, 12) matches Some((text, pos)) && pos == end - 4 && name == if text.len()
                == 0 {
                seq!['.']
            } else {
                text
            }
            &&& kind == 256 * q[end - 4] + q[end - 3]
            &&& class == 256 * q[end - 2] + q[end - 1]
        },
{
    if q.len() >= 12 {
        let f = q[2];
        assert(f & 0xf8 == 0 <==> f < 8) by (bit_vector);
    }
    if asked(q) is Some {
        lemma_labels_end(q, 12);
    }
}

/// Only the question matters to what is asked: two queries that agree from byte 12 up to
/// where the question of one ends ask the same, whatever their ids, the other flags and counts
/// and what follows the question.
pub proof fn law_only_the_question_matters(a: Seq<u8>, b: Seq<u8>)
    requires
        asked(a) is Some,
        b.len() >= (asked(a)->0).3,
        b[2] < 8,
        b[4] == 0,
        b[5] == 1,
        forall|i: int| 12 <= i < (asked(a)->0).3 ==> #[trigger] a[i] == b[i],
    ensures
        asked(b) == asked(a),
{
    law_where_a_question_stands(a);
    let f = b[2];
    assert(f & 0xf8 == 0 <==> f < 8) by (bit_vector);
    lemma_labels_end(a, 12);
    lemma_same_labels(a, b, 12, (asked(a)->0).3 - 4);
}

proof fn lemma_same_labels(a: Seq<u8>, b: Seq<u8>, pos: int, end: int)
    requires
        12 <= pos,
        labels(a, pos) is Some,
        (labels(a, pos)->0).1 == end,
        end <= a.len(),
        end <= b.len(),
        forall|i: int| 12 <= i < end ==> #[trigger] a[i] == b[i],
    ensures
        labels(b, pos) == labels(a, pos),
    decreases a.len() - pos,
{
    lemma_labels_end(a, pos);
    if a[pos] != 0 {
        let next = pos + 1 + a[pos];
        lemma_labels_end(a, next);
        lemma_same_labels(a, b, next, end);
        assert(a.subrange(pos + 1, next) =~= b.subrange(pos + 1, next));
    }
}

fn push_label(name: &mut String, query: &[u8], from: usize, to: usize)
    requires
        from <= to <= query.len(),
    ensures
        final(name)@ == old(name)@ + printed_label(
            query@.subrange(from as int, to as int),
            to - from,
        ),
{
    let ghost label = query@.subrange(from as int, to as int);
    let ghost before = name@;
    let mut i: usize = from;
    while i < to
        invariant
            from <= i <= to <= query.len(),
            label == query@.subrange(from as int, to as int),
            name@ == before + printed_label(label, i - from),
        decreases to - i,
    {
        let b: u8 = query[i];
        proof {
            assert(label[i - from] == b);
        }
        if (48 <= b && b <= 57) || (65 <= b && b <= 90) || (97 <= b && b <= 122) || b == 45 || b
            == 95 {
            name.push(b as char);
        } else {
            name.push('\\');
            push_padded(name, b as u64, 3, '0');
        }
        i = i + 1;
        proof {
            assert(name@ =~= before + (printed_label(label, i - 1 - from) + printed(b)));
        }
    }
}

/// The question of a query: its name with escapes and a final dot, its type, its
/// class, and where it ends.
pub fn question(query: &[u8]) -> (r: Option<(String, u16, u16, usize)>)
    ensures
        match r {
            Some((name, kind, class, end)) => asked(query@) == Some(
                (name@, kind as int, class as int, end as int),
            ),
            None => asked(query@) is None,
        },
{
    if query.len() < HEADER || query[2] & 0xf8 != 0 || query[4] != 0 || query[5] != 1 {
        return None;
    }
    let mut pos: usize = HEADER;
    let mut name = String::new();
    let mut root = true;
    loop
        invariant_except_break
            HEADER <= pos <= HEADER + NAME_MAX,
            labels(query@, HEADER as int) == match labels(query@, pos as int) {
                Some((rest, after)) => Some((name@ + rest, after)),
                None => None,
            },
        invariant
            root == (name@.len() == 0),
            query.len() >= HEADER,
            query@[2] & 0xf8 == 0,
            query@[4] == 0,
            query@[5] == 1,
        ensures
            HEADER <= pos <= HEADER + NAME_MAX + 1,
            labels(query@, HEADER as int) == Some((name@, pos as int)),
        decreases query.len() - pos,
    {
        if pos >= query.len() {
            return None;
        }
        let len: usize = query[pos] as usize;
        if len == 0 {
            pos = pos + 1;
            proof {
                assert(name@ + Seq::<char>::empty() =~= name@);
            }
            break;
        }
        let end: usize = pos + 1 + len;
        if len > LABEL_MAX || end - HEADER > NAME_MAX || end > query.len() {
            return None;
        }
        let ghost before = name@;
        push_label(&mut name, query, pos + 1, end);
        name.push('.');
        root = false;
        proof {
            let label = printed_label(query@.subrange(pos + 1, end as int), len as int);
            assert(name@ =~= before + label.push('.'));
            if labels(query@, end as int) is Some {
                let rest = (labels(query@, end as int)->0).0;
                assert(before + (label.push('.') + rest) =~= name@ + rest);
            }
        }
        pos = end;
    }
    if pos + 4 > query.len() {
        return None;
    }
    if root {
        name.push('.');
        proof {
            assert(name@ =~= seq!['.']);
        }
    }
    let kind: u16 = query[pos] as u16 * 256 + query[pos + 1] as u16;
    let class: u16 = query[pos + 2] as u16 * 256 + query[pos + 3] as u16;
    Some((name, kind, class, pos + 4))
}

// ---------------------------------------------------------------------------
// Replies
// ---------------------------------------------------------------------------

/// The reply without records to a query whose question ends at `end`: the header
/// says that it is a reply and that recursion is available, and keeps what the query
/// said of the recursion that it wants.
pub open spec fn bare_reply(q: Seq<u8>, end: int, rcode: u8) -> Seq<u8> {
    Seq::new(
        end as nat,
        |i: int|
            if i == 2 {
                0x80 | (q[2] & 1)
            } else if i == 3 {
                0x80 | (rcode & 15)
            } else if 6 <= i < 12 {
                0u8
            } else {
                q[i]
            },
    )
}

/// The reply with an error, or with no records, to a query; none if the query has no
/// question to repeat.
pub open spec fn error_of(q: Seq<u8>, rcode: u8) -> Option<Seq<u8>> {
    match asked(q) {
        Some((_, _, _, end)) => Some(bare_reply(q, end, rcode)),
        None => None,
    }
}

/// Where a question ends, it lies inside the query and behind the header.
proof fn lemma_labels_end(q: Seq<u8>, pos: int)
    requires
        labels(q, pos) is Some,
    ensures
        pos < (labels(q, pos)->0).1 <= q.len(),
    decreases q.len() - pos,
{
    if q[pos] != 0 {
        lemma_labels_end(q, pos + 1 + q[pos]);
    }
}

/// The reply with an error, or with no records, to a query.
pub fn error_reply(query: &[u8], rcode: u8) -> (r: Option<Vec<u8>>)
    ensures
        match r {
            Some(reply) => error_of(query@, rcode) == Some(reply@),
            None => error_of(query@, rcode) is None,
        },
{
    let end: usize = match question(query) {
        Some((_, _, _, end)) => end,
        None => {
            return None;
        },
    };
    proof {
        lemma_labels_end(query@, HEADER as int);
    }
    let mut reply: Vec<u8> = Vec::new();
    let mut i: usize = 0;
    while i < end
        invariant
            i <= end <= query.len(),
            end >= HEADER,
            reply@ == bare_reply(query@, end as int, rcode).take(i as int),
        decreases end - i,
    {
        let b: u8 = if i == 2 {
            0x80 | (query[2] & 1)
        } else if i == 3 {
            0x80 | (rcode & 15)
        } else if 6 <= i && i < 12 {
            0
        } else {
            query[i]
        };
        reply.push(b);
        i = i + 1;
        proof {
            assert(reply@ =~= bare_reply(query@, end as int, rcode).take(i as int));
        }
    }
    proof {
        assert(reply@ =~= bare_reply(query@, end as int, rcode));
    }
    Some(reply)
}

/// A reply with an error keeps the id, the question and the recursion that was
/// wanted, says that it is a reply and that recursion is available, and holds no
/// records.
pub proof fn law_error_replies_repeat_the_question(q: Seq<u8>, rcode: u8)
    requires
        asked(q) is Some,
    ensures
        error_of(q, rcode) matches Some(r) && {
            let end = (asked(q)->0).3;
            &&& r.len() == end
            &&& r.take(2) == q.take(2)
            &&& r[4] == 0 && r[5] == 1
            &&& r.skip(12) == q.subrange(12, end)
            &&& r[2] & 0x80 == 0x80
            &&& r[2] & 0x78 == 0
            &&& r[2] & 1 == q[2] & 1
            &&& r[3] & 0x80 == 0x80
            &&& r[3] & 15 == rcode & 15
            &&& forall|i: int| 6 <= i < 12 ==> r[i] == 0
        },
{
    lemma_labels_end(q, HEADER as int);
    let end = (asked(q)->0).3;
    let r = bare_reply(q, end, rcode);
    assert(r.take(2) =~= q.take(2));
    assert(r.skip(12) =~= q.subrange(12, end));
    let a = q[2];
    assert((0x80u8 | (a & 1)) & 0x80 == 0x80 && (0x80u8 | (a & 1)) & 0x78 == 0 && (0x80u8 | (a & 1))
        & 1 == a & 1) by (bit_vector);
    assert((0x80u8 | (rcode & 15)) & 0x80 == 0x80 && (0x80u8 | (rcode & 15)) & 15 == rcode & 15)
        by (bit_vector);
}

/// A reply is never taken for a question.
pub proof fn law_replies_are_not_questions(r: Seq<u8>)
    requires
        r.len() >= HEADER,
        r[2] & 0x80 == 0x80,
    ensures
        asked(r) is None,
{
    let a = r[2];
    assert(a & 0x80 == 0x80 ==> a & 0xf8 != 0) by (bit_vector);
}

/// Whether a query is sent to a resolver: it has at least a header.
pub fn is_forwarded(query: &[u8]) -> (r: bool)
    ensures
        r == (query@.len() >= HEADER),
{
    query.len() >= HEADER
}

/// Whether what a resolver sent answers a query: both have a header, the ids agree,
/// and it says that it is a reply.
pub open spec fn answers(q: Seq<u8>, reply: Seq<u8>) -> bool {
    &&& q.len() >= HEADER
    &&& reply.len() >= HEADER
    &&& reply[0] == q[0]
    &&& reply[1] == q[1]
    &&& reply[2] & 0x80 != 0
}

/// Whether what a resolver sent answers a query.
pub fn accept_reply(query: &[u8], reply: &[u8]) -> (r: bool)
    ensures
        r == answers(query@, reply@),
{
    query.len() >= HEADER && reply.len() >= HEADER && reply[0] == query[0] && reply[1] == query[1]
        && reply[2] & 0x80 != 0
}

/// An error reply answers its query.
pub proof fn law_error_replies_answer(q: Seq<u8>, rcode: u8)
    requires
        asked(q) is Some,
    ensures
        answers(q, error_of(q, rcode)->0),
{
    lemma_labels_end(q, HEADER as int);
    let a = q[2];
    assert((0x80u8 | (a & 1)) & 0x80 != 0) by (bit_vector);
}

/// What the reply of the system's resolver becomes. It left `n` as its result and
/// the reply in `buffer`.
pub open spec fn native_of(q: Seq<u8>, buffer: Seq<u8>, n: int) -> Option<Seq<u8>> {
    if asked(q) is None {
        None
    } else if n < HEADER {
        if buffer[2] & 0x80 != 0 {
            error_of(q, buffer[3] & 15)
        } else {
            None
        }
    } else if n > buffer.len() {
        match error_of(q, 0) {
            Some(r) => Some(r.update(2, r[2] | 2)),
            None => None,
        }
    } else {
        Some(q.take(2) + buffer.subrange(2, n))
    }
}

/// Whatever the system's resolver left, the reply has the id of the query and says that
/// it is a reply, if the resolver's own does.
pub proof fn law_native_replies_keep_the_id(q: Seq<u8>, buffer: Seq<u8>, n: int)
    requires
        buffer.len() >= HEADER,
        native_of(q, buffer, n) is Some,
    ensures
        (native_of(q, buffer, n)->0).len() >= HEADER,
        (native_of(q, buffer, n)->0).take(2) == q.take(2),
        n < HEADER || n > buffer.len() || buffer[2] & 0x80 != 0 ==> answers(
            q,
            native_of(q, buffer, n)->0,
        ),
{
    lemma_labels_end(q, HEADER as int);
    let r = native_of(q, buffer, n)->0;
    assert(r.take(2) =~= q.take(2));
    assert(r.take(2)[0] == r[0] && r.take(2)[1] == r[1]);
    assert(q.take(2)[0] == q[0] && q.take(2)[1] == q[1]);
    let a = q[2];
    assert((0x80u8 | (a & 1)) & 0x80 != 0 && ((0x80u8 | (a & 1)) | 2) & 0x80 != 0) by (bit_vector);
}

/// What the reply of the system's resolver becomes. The resolver may fail and still
/// leave the header of a negative reply in the buffer, which is kept; a reply that
/// does not fit becomes one that says that it was cut; any other gets the id of the
/// query.
pub fn native_reply(query: &[u8], buffer: &Vec<u8>, n: i32) -> (r: Option<Vec<u8>>)
    requires
        buffer.len() >= HEADER,
    ensures
        match r {
            Some(reply) => native_of(query@, buffer@, n as int) == Some(reply@),
            None => native_of(query@, buffer@, n as int) is None,
        },
        asked(query@) is Some && 12 <= n <= buffer.len() ==> (r matches Some(reply) && {
            &&& reply@.len() == n
            &&& reply@[0] == query@[0] && reply@[1] == query@[1]
            &&& forall|i: int| 2 <= i < n ==> #[trigger] reply@[i] == buffer@[i]
        }),
{
    if question(query).is_none() {
        return None;
    }
    if n < HEADER as i32 {
        return if buffer[2] & 0x80 != 0 {
            error_reply(query, buffer[3] & 15)
        } else {
            None
        };
    }
    let n: usize = n as usize;
    if n > buffer.len() {
        return match error_reply(query, 0) {
            Some(reply) => {
                proof {
                    lemma_labels_end(query@, HEADER as int);
                }
                let mut cut = reply;
                let flags: u8 = cut[2];
                cut.set(2, flags | 2);
                Some(cut)
            },
            None => None,
        };
    }
    let mut out: Vec<u8> = Vec::new();
    out.push(query[0]);
    out.push(query[1]);
    let mut i: usize = 2;
    while i < n
        invariant
            2 <= i <= n <= buffer.len(),
            query.len() >= 2,
            out@ == query@.take(2) + buffer@.subrange(2, i as int),
        decreases n - i,
    {
        out.push(buffer[i]);
        i = i + 1;
        proof {
            assert(out@ =~= query@.take(2) + buffer@.subrange(2, i as int));
        }
    }
    Some(out)
}

/// A whole reply of the system's resolver comes through byte for byte: the guest gets as many
/// bytes as the resolver gave, the first two are the id of the query, and every other one,
/// the counts and the records among them, is the resolver's own.
pub proof fn law_whole_replies_come_through(q: Seq<u8>, buffer: Seq<u8>, n: int)
    requires
        asked(q) is Some,
        12 <= n <= buffer.len(),
    ensures
        native_of(q, buffer, n) matches Some(r) && {
            &&& r.len() == n
            &&& r[0] == q[0] && r[1] == q[1]
            &&& forall|i: int| 2 <= i < n ==> #[trigger] r[i] == buffer[i]
        },
{
}

/// What else the system's resolver can leave. A result that is too small for a header means
/// that it failed: if the buffer holds the header of a reply all the same, the guest gets a
/// reply without records with its code, else nothing. A result beyond the buffer means that the
/// reply did not fit: the guest gets one without records that says that it was cut. Either
/// repeats the question. A query without a question gets nothing.
pub proof fn law_failed_and_cut_replies(q: Seq<u8>, buffer: Seq<u8>, n: int)
    requires
        buffer.len() >= 12,
    ensures
        asked(q) is None ==> native_of(q, buffer, n) is None,
        asked(q) is Some && n < 12 && buffer[2] < 128 ==> native_of(q, buffer, n) is None,
        asked(q) is Some && n < 12 && buffer[2] >= 128 ==> (native_of(
            q,
            buffer,
            n,
        ) matches Some(r) && {
            let end = (asked(q)->0).3;
            &&& r.len() == end
            &&& r[2] == 128 + q[2] % 2
            &&& r[3] == 128 + buffer[3] % 16
            &&& forall|i: int| 6 <= i < 12 ==> #[trigger] r[i] == 0
            &&& forall|i: int|
                0 <= i < end && (i < 2 || 4 <= i < 6 || i >= 12) ==> #[trigger] r[i] == q[i]
        }),
        asked(q) is Some && n >= 12 && n > buffer.len() ==> (native_of(
            q,
            buffer,
            n,
        ) matches Some(r) && {
            let end = (asked(q)->0).3;
            &&& r.len() == end
            &&& r[2] == 130 + q[2] % 2
            &&& r[3] == 128
            &&& forall|i: int| 6 <= i < 12 ==> #[trigger] r[i] == 0
            &&& forall|i: int|
                0 <= i < end && (i < 2 || 4 <= i < 6 || i >= 12) ==> #[trigger] r[i] == q[i]
        }),
{
    let a = buffer[2];
    let b = buffer[3];
    assert(a & 0x80 != 0 <==> a >= 128) by (bit_vector);
    assert((b & 15) & 15 == b & 15 && b & 15 == b % 16) by (bit_vector);
    if asked(q) is Some {
        lemma_labels_end(q, 12);
        lemma_flags(q[2], b & 15);
        lemma_flags(q[2], 0);
    }
}

/// The flags of a reply without records, as numbers.
proof fn lemma_flags(f: u8, rcode: u8)
    ensures
        0x80 | (f & 1) == 128 + f % 2,
        (0x80 | (f & 1)) | 2 == 130 + f % 2,
        0x80 | (rcode & 15) == 128 + rcode % 16,
{
    assert(0x80 | (f & 1) == 128 + f % 2 && (0x80 | (f & 1)) | 2 == 130 + f % 2 && 0x80 | (rcode
        & 15) == 128 + rcode % 16) by (bit_vector);
}

/// A reply without records, byte by byte: the id, the count of questions and the question are
/// the query's; of its flags only the recursion that is wanted stays, and the reply, the
/// recursion that is available and the code are set; every other count is zero. A query gets
/// one exactly if it has a question.
pub proof fn law_replies_without_records(q: Seq<u8>, rcode: u8)
    ensures
        asked(q) is None ==> error_of(q, rcode) is None,
        asked(q) matches Some((_, _, _, end)) ==> error_of(q, rcode) matches Some(r) && {
            &&& r.len() == end
            &&& r[2] == 128 + q[2] % 2
            &&& r[3] == 128 + rcode % 16
            &&& forall|i: int| 6 <= i < 12 ==> #[trigger] r[i] == 0
            &&& forall|i: int|
                0 <= i < end && (i < 2 || 4 <= i < 6 || i >= 12) ==> #[trigger] r[i] == q[i]
        },
{
    if asked(q) is Some {
        lemma_labels_end(q, 12);
        lemma_flags(q[2], rcode);
    }
}

/// What a resolver sent answers a query exactly if both have a header, the first two bytes
/// agree and the top bit of the third is set; nothing behind that matters.
pub proof fn law_what_answers(q: Seq<u8>, reply: Seq<u8>)
    ensures
        answers(q, reply) <==> q.len() >= 12 && reply.len() >= 12 && reply[0] == q[0] && reply[1]
            == q[1] && reply[2] >= 128,
{
    let a = reply[2];
    assert(a & 0x80 != 0 <==> a >= 128) by (bit_vector);
}

/// Server failure.
pub const SERVFAIL: u8 = 2;

/// The reply to a query: what the resolver gave, or a server failure. None if the
/// query has no question either.
pub fn reply_or_failure(query: &[u8], resolved: Option<Vec<u8>>) -> (r: Option<Vec<u8>>)
    ensures
        match resolved {
            Some(reply) => r == Some(reply),
            None => match r {
                Some(reply) => error_of(query@, SERVFAIL) == Some(reply@) && reply@[3] == 0x82,
                None => error_of(query@, SERVFAIL) is None,
            },
        },
{
    proof {
        law_replies_without_records(query@, SERVFAIL);
    }
    match resolved {
        Some(reply) => Some(reply),
        None => error_reply(query, SERVFAIL),
    }
}

// ---------------------------------------------------------------------------
// Queues
// ---------------------------------------------------------------------------

/// A query of the guest, with where it came from.
#[derive(Clone, Debug, PartialEq, Eq)]
pub struct Request {
    pub client_mac: [u8; 6],
    pub client_ip: Ipv4Addr,
    pub server_ip: Ipv4Addr,
    pub client_port: u16,
    pub query: Vec<u8>,
}

/// Requests, or replies, that a queue holds.
pub const QUEUE_MAX: usize = 32;

/// A queue once something came for it that it has room for, or has not.
pub open spec fn queued<T>(q: Seq<T>, x: T) -> Seq<T> {
    if q.len() < QUEUE_MAX {
        q.push(x)
    } else {
        q
    }
}

/// What is taken from a queue, and what is left of it.
pub open spec fn dequeued<T>(q: Seq<T>) -> (Option<T>, Seq<T>) {
    if q.len() == 0 {
        (None, q)
    } else {
        (Some(q[0]), q.skip(1))
    }
}

/// A queue holds 32 and drops what comes beyond; what waits in it is taken in the order in
/// which it came, and what comes later changes nothing for what waits.
pub proof fn law_queues_keep_the_order<T>(q: Seq<T>, x: T)
    ensures
        q.len() < 32 ==> queued(q, x).len() == q.len() + 1 && queued(q, x).last() == x,
        q.len() >= 32 ==> queued(q, x) == q,
        queued(q, x).take(q.len() as int) == q,
        0 < q.len() < 32 ==> dequeued(queued(q, x)) == (
            dequeued(q).0,
            queued(dequeued(q).1, x),
        ),
        q.len() == 0 ==> dequeued(queued(q, x)).0 == Some(x) && dequeued(queued(q, x)).1.len() == 0,
        dequeued(q).0 is None <==> q.len() == 0,
{
    assert(queued(q, x).take(q.len() as int) =~= q);
    if 0 < q.len() < 32 {
        assert(queued(q, x).skip(1) =~= queued(q.skip(1), x));
    }
}

/// The queues between the gateway and the resolver.
#[derive(Debug)]
pub struct DnsProxy {
    requests: Vec<Request>,
    replies: Vec<(Request, Vec<u8>)>,
}

impl DnsProxy {
    /// The requests that wait, oldest first.
    pub closed spec fn waiting(self) -> Seq<Request> {
        self.requests@
    }

    /// The replies that wait, oldest first.
    pub closed spec fn answered(self) -> Seq<(Request, Vec<u8>)> {
        self.replies@
    }

    /// Neither queue is longer than it may be.
    pub open spec fn wf(self) -> bool {
        self.waiting().len() <= QUEUE_MAX && self.answered().len() <= QUEUE_MAX
    }

    pub fn new() -> (r: Self)
        ensures
            r.wf(),
            r.waiting().len() == 0,
            r.answered().len() == 0,
    {
        DnsProxy { requests: Vec::new(), replies: Vec::new() }
    }

    /// Queues a request, or drops it if the queue is full: clients retry.
    pub fn submit(&mut self, request: Request)
        requires
            old(self).wf(),
        ensures
            final(self).wf(),
            final(self).waiting() == if old(self).waiting().len() < QUEUE_MAX {
                old(self).waiting().push(request)
            } else {
                old(self).waiting()
            },
            final(self).waiting() == queued(old(self).waiting(), request),
            final(self).answered() == old(self).answered(),
    {
        if self.requests.len() < QUEUE_MAX {
            self.requests.push(request);
        }
    }

    /// Takes the oldest request.
    pub fn next_request(&mut self) -> (r: Option<Request>)
        requires
            old(self).wf(),
        ensures
            final(self).wf(),
            match r {
                Some(request) => {
                    &&& old(self).waiting().len() > 0
                    &&& request == old(self).waiting()[0]
                    &&& final(self).waiting() == old(self).waiting().skip(1)
                },
                None => old(self).waiting().len() == 0 && final(self).waiting() == old(
                    self,
                ).waiting(),
            },
            (r, final(self).waiting()) == dequeued(old(self).waiting()),
            final(self).answered() == old(self).answered(),
    {
        if self.requests.len() == 0 {
            return None;
        }
        let request = self.requests.remove(0);
        proof {
            assert(self.requests@ =~= old(self).requests@.skip(1));
        }
        Some(request)
    }

    /// Queues a reply, or hands it back if the queue is full: the resolver waits
    /// until there is room.
    pub fn finish(&mut self, request: Request, reply: Vec<u8>) -> (r: Option<(Request, Vec<u8>)>)
        requires
            old(self).wf(),
        ensures
            final(self).wf(),
            match r {
                Some(back) => {
                    &&& old(self).answered().len() == QUEUE_MAX
                    &&& back == (request, reply)
                    &&& final(self).answered() == old(self).answered()
                },
                None => {
                    &&& old(self).answered().len() < QUEUE_MAX
                    &&& final(self).answered() == old(self).answered().push((request, reply))
                },
            },
            r is None <==> old(self).answered().len() < 32,
            final(self).answered() == queued(old(self).answered(), (request, reply)),
            final(self).waiting() == old(self).waiting(),
    {
        if self.replies.len() < QUEUE_MAX {
            self.replies.push((request, reply));
            None
        } else {
            Some((request, reply))
        }
    }

    /// Takes the oldest reply.
    pub fn poll(&mut self) -> (r: Option<(Request, Vec<u8>)>)
        requires
            old(self).wf(),
        ensures
            final(self).wf(),
            match r {
                Some(reply) => {
                    &&& old(self).answered().len() > 0
                    &&& reply == old(self).answered()[0]
                    &&& final(self).answered() == old(self).answered().skip(1)
                },
                None => old(self).answered().len() == 0 && final(self).answered() == old(
                    self,
                ).answered(),
            },
            (r, final(self).answered()) == dequeued(old(self).answered()),
            final(self).waiting() == old(self).waiting(),
    {
        if self.replies.len() == 0 {
            return None;
        }
        let reply = self.replies.remove(0);
        proof {
            assert(self.replies@ =~= old(self).replies@.skip(1));
        }
        Some(reply)
    }
}

} // verus!
