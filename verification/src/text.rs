//! Text as the emulator reads and writes it: decimal numbers, trimmed and
//! lower-cased input, prefixes and substrings. The contracts speak of a string
//! as the sequence of its characters.
use vstd::prelude::*;

verus! {

/// `String::push` of the standard library: appends one character.
pub assume_specification[ String::push ](s: &mut String, c: char)
    ensures
        final(s)@ == old(s)@.push(c),
;

/// `is_separator` of the standard library: whether the host separates the components of a
/// path by this character. Nothing is claimed of the answer, which is that of the machine:
/// of the hosts that the program runs on, Windows alone separates by `\`.
pub assume_specification[ std::path::is_separator ](c: char) -> (r: bool)
;

// ---------------------------------------------------------------------------
// Characters
// ---------------------------------------------------------------------------

/// The characters of a string, in order.
pub fn chars_of(s: &str) -> (r: Vec<char>)
    ensures
        r@ == s@,
{
    let mut out: Vec<char> = Vec::new();
    for c in it: s.chars()
        invariant
            it.seq() == s@,
            out@ == s@.take(it.index() as int),
    {
        out.push(c);
        proof {
            assert(s@.take(it.index() as int + 1) =~= s@.take(it.index() as int).push(c));
        }
    }
    proof {
        assert(s@.take(s@.len() as int) =~= s@);
    }
    out
}

/// The string that holds these characters.
pub fn string_of(cs: &[char]) -> (r: String)
    ensures
        r@ == cs@,
{
    let mut out = String::new();
    let mut i: usize = 0;
    while i < cs.len()
        invariant
            i <= cs.len(),
            out@ == cs@.take(i as int),
        decreases cs.len() - i,
    {
        out.push(cs[i]);
        i = i + 1;
        proof {
            assert(cs@.take(i as int) =~= cs@.take(i - 1).push(cs@[i - 1]));
        }
    }
    proof {
        assert(cs@.take(cs@.len() as int) =~= cs@);
    }
    out
}

/// An owned copy of a string slice.
pub fn owned(s: &str) -> (r: String)
    ensures
        r@ == s@,
{
    s.to_owned()
}

/// The text in an option, if there is one.
pub open spec fn opt_text(o: Option<String>) -> Option<Seq<char>> {
    match o {
        Some(s) => Some(s@),
        None => None,
    }
}

/// A copy of an optional string.
pub fn copy_opt(o: &Option<String>) -> (r: Option<String>)
    ensures
        opt_text(r) == opt_text(*o),
{
    match o {
        Some(s) => Some(s.clone()),
        None => None,
    }
}

/// The texts in a list of strings.
pub open spec fn texts(v: Seq<String>) -> Seq<Seq<char>> {
    v.map_values(|s: String| s@)
}

/// A copy of a list of strings.
pub fn copy_texts(v: &Vec<String>) -> (r: Vec<String>)
    ensures
        texts(r@) == texts(v@),
{
    let mut out: Vec<String> = Vec::new();
    let mut i: usize = 0;
    while i < v.len()
        invariant
            i <= v.len(),
            out.len() == i,
            forall|k: int| 0 <= k < i ==> (#[trigger] out[k])@ == v[k]@,
        decreases v.len() - i,
    {
        out.push(v[i].clone());
        i = i + 1;
    }
    proof {
        assert(texts(out@) =~= texts(v@));
    }
    out
}

/// The characters from `start` up to `end`.
pub fn slice_of(cs: &[char], start: usize, end: usize) -> (r: Vec<char>)
    requires
        start <= end <= cs.len(),
    ensures
        r@ == cs@.subrange(start as int, end as int),
{
    let mut out: Vec<char> = Vec::new();
    let mut i: usize = start;
    while i < end
        invariant
            start <= i <= end <= cs.len(),
            out@ == cs@.subrange(start as int, i as int),
        decreases end - i,
    {
        out.push(cs[i]);
        i = i + 1;
        proof {
            assert(cs@.subrange(start as int, i as int) =~= cs@.subrange(
                start as int,
                i - 1,
            ).push(cs@[i - 1]));
        }
    }
    out
}

/// Two slices hold the same characters.
pub fn same_chars(a: &[char], b: &[char]) -> (r: bool)
    ensures
        r == (a@ == b@),
{
    if a.len() != b.len() {
        return false;
    }
    let mut i: usize = 0;
    while i < a.len()
        invariant
            i <= a.len(),
            a.len() == b.len(),
            forall|k: int| 0 <= k < i ==> a@[k] == b@[k],
        decreases a.len() - i,
    {
        if a[i] != b[i] {
            return false;
        }
        i = i + 1;
    }
    proof {
        assert(a@ =~= b@);
    }
    true
}

/// Two strings hold the same characters.
pub fn same_text(a: &str, b: &str) -> (r: bool)
    ensures
        r == (a@ == b@),
{
    let x = chars_of(a);
    let y = chars_of(b);
    same_chars(&x, &y)
}

// ---------------------------------------------------------------------------
// White space
// ---------------------------------------------------------------------------

/// The characters with the Unicode property White_Space.
pub open spec fn is_white_space(c: char) -> bool {
    let n = c as u32;
    ||| 0x9 <= n <= 0xD
    ||| n == 0x20
    ||| n == 0x85
    ||| n == 0xA0
    ||| n == 0x1680
    ||| 0x2000 <= n <= 0x200A
    ||| n == 0x2028
    ||| n == 0x2029
    ||| n == 0x202F
    ||| n == 0x205F
    ||| n == 0x3000
}

fn white_space(c: char) -> (r: bool)
    ensures
        r == is_white_space(c),
{
    let n: u32 = c as u32;
    (0x9 <= n && n <= 0xD) || n == 0x20 || n == 0x85 || n == 0xA0 || n == 0x1680 || (0x2000 <= n
        && n <= 0x200A) || n == 0x2028 || n == 0x2029 || n == 0x202F || n == 0x205F || n == 0x3000
}

/// `s` without the white space that it starts with.
pub open spec fn trimmed_start(s: Seq<char>) -> Seq<char>
    decreases s.len(),
{
    if s.len() > 0 && is_white_space(s[0]) {
        trimmed_start(s.drop_first())
    } else {
        s
    }
}

/// `s` without the white space that it ends with.
pub open spec fn trimmed_end(s: Seq<char>) -> Seq<char>
    decreases s.len(),
{
    if s.len() > 0 && is_white_space(s.last()) {
        trimmed_end(s.drop_last())
    } else {
        s
    }
}

/// `s` without the white space at either end.
pub open spec fn trimmed(s: Seq<char>) -> Seq<char> {
    trimmed_end(trimmed_start(s))
}

/// The characters of `s` without the white space at either end.
pub fn trim_chars(s: &str) -> (r: Vec<char>)
    ensures
        r@ == trimmed(s@),
{
    let cs = chars_of(s);
    let n: usize = cs.len();
    let mut start: usize = 0;
    proof {
        assert(cs@.skip(0) =~= cs@);
    }
    while start < n && white_space(cs[start])
        invariant
            n == cs.len(),
            start <= n,
            trimmed_start(cs@) == trimmed_start(cs@.skip(start as int)),
        decreases n - start,
    {
        proof {
            assert(cs@.skip(start as int).drop_first() =~= cs@.skip(start + 1));
        }
        start = start + 1;
    }
    let ghost body = cs@.skip(start as int);
    proof {
        assert(trimmed_start(cs@) == body);
    }
    let mut end: usize = n;
    proof {
        assert(cs@.subrange(start as int, n as int) =~= body);
    }
    while end > start && white_space(cs[end - 1])
        invariant
            n == cs.len(),
            start <= end <= n,
            trimmed_end(body) == trimmed_end(cs@.subrange(start as int, end as int)),
        decreases end,
    {
        proof {
            assert(cs@.subrange(start as int, end as int).drop_last() =~= cs@.subrange(
                start as int,
                end - 1,
            ));
        }
        end = end - 1;
    }
    slice_of(&cs, start, end)
}

/// Which characters are white space: among the ASCII ones the space and those from the
/// tab to the carriage return, and beyond them the ones that Unicode lists.
pub proof fn law_white_space(c: char)
    ensures
        (c as int) < 0x80 ==> (is_white_space(c) <==> c == ' ' || 9 <= c as int <= 13),
        (c as int) >= 0x80 ==> (is_white_space(c) <==> {
            ||| c as int == 0x85 || c as int == 0xA0 || c as int == 0x1680
            ||| 0x2000 <= c as int <= 0x200A
            ||| c as int == 0x2028 || c as int == 0x2029 || c as int == 0x202F
            ||| c as int == 0x205F || c as int == 0x3000
        }),
{
}

/// White space before and behind a text falls away, and nothing else does: what is inside,
/// if it neither starts nor ends with white space, is what is left.
pub proof fn law_trimming(front: Seq<char>, inside: Seq<char>, back: Seq<char>)
    requires
        forall|i: int| 0 <= i < front.len() ==> is_white_space(#[trigger] front[i]),
        forall|i: int| 0 <= i < back.len() ==> is_white_space(#[trigger] back[i]),
        inside.len() > 0 ==> !is_white_space(inside[0]) && !is_white_space(inside.last()),
    ensures
        trimmed(front + inside + back) == inside,
    decreases front.len() + back.len(),
{
    let all = front + inside + back;
    if front.len() > 0 {
        let rest = front.drop_first();
        law_trimming(rest, inside, back);
        assert(all[0] == front[0]);
        assert(all.drop_first() =~= rest + inside + back);
    } else if back.len() > 0 {
        assert(all =~= inside + back);
        if inside.len() == 0 {
            let rest = back.drop_first();
            law_trimming(front, inside, rest);
            assert(all[0] == back[0]);
            assert(all.drop_first() =~= front + inside + rest);
        } else {
            let rest = back.drop_last();
            law_trimming(front, inside, rest);
            let shorter = front + inside + rest;
            assert(shorter =~= inside + rest);
            assert(shorter[0] == inside[0]);
            assert(all[0] == inside[0]);
            assert(trimmed_start(all) == all);
            assert(trimmed_start(shorter) == shorter);
            assert(all.last() == back.last());
            assert(all.drop_last() =~= shorter);
        }
    } else {
        assert(all =~= inside);
    }
}

/// A text that neither starts nor ends with white space is left as it is.
pub proof fn law_trimmed_texts_stay(s: Seq<char>)
    requires
        s.len() > 0 ==> !is_white_space(s[0]) && !is_white_space(s.last()),
    ensures
        trimmed(s) == s,
{
    law_trimming(seq![], s, seq![]);
    assert(Seq::<char>::empty() + s + Seq::<char>::empty() =~= s);
}

/// What is left after trimming is a part of the text that neither starts nor ends with
/// white space.
pub proof fn law_trimmed_is_trimmed(s: Seq<char>)
    ensures
        trimmed(s).len() <= s.len(),
        trimmed(s).len() > 0 ==> !is_white_space(trimmed(s)[0]) && !is_white_space(
            trimmed(s).last(),
        ),
        has_substring(s, trimmed(s)),
        trimmed(trimmed(s)) == trimmed(s),
{
    lemma_trimmed_part(s);
    let (a, b) = choose|a: int, b: int|
        0 <= a <= b <= s.len() && trimmed(s) == #[trigger] s.subrange(a, b);
    assert(stands_at(s, trimmed(s), a));
    law_trimmed_texts_stay(trimmed(s));
}

proof fn lemma_trimmed_part(s: Seq<char>)
    ensures
        exists|a: int, b: int|
            0 <= a <= b <= s.len() && trimmed(s) == #[trigger] s.subrange(a, b),
        trimmed(s).len() > 0 ==> !is_white_space(trimmed(s)[0]) && !is_white_space(
            trimmed(s).last(),
        ),
    decreases s.len(),
{
    if s.len() > 0 && is_white_space(s[0]) {
        let rest = s.drop_first();
        lemma_trimmed_part(rest);
        let (a, b) = choose|a: int, b: int|
            0 <= a <= b <= rest.len() && trimmed(rest) == #[trigger] rest.subrange(a, b);
        assert(rest.subrange(a, b) =~= s.subrange(a + 1, b + 1));
    } else {
        lemma_trimmed_end_part(s);
        let b = choose|b: int| 0 <= b <= s.len() && trimmed_end(s) == #[trigger] s.take(b);
        assert(s.take(b) =~= s.subrange(0, b));
    }
}

proof fn lemma_trimmed_end_part(s: Seq<char>)
    ensures
        exists|b: int| 0 <= b <= s.len() && trimmed_end(s) == #[trigger] s.take(b),
        trimmed_end(s).len() > 0 ==> trimmed_end(s)[0] == s[0] && !is_white_space(
            trimmed_end(s).last(),
        ),
    decreases s.len(),
{
    if s.len() > 0 && is_white_space(s.last()) {
        let rest = s.drop_last();
        lemma_trimmed_end_part(rest);
        let b = choose|b: int| 0 <= b <= rest.len() && trimmed_end(rest) == #[trigger] rest.take(
            b,
        );
        assert(rest.take(b) =~= s.take(b));
    } else {
        assert(s.take(s.len() as int) =~= s);
    }
}

// ---------------------------------------------------------------------------
// Prefixes, substrings, separators
// ---------------------------------------------------------------------------

/// `s` begins with `prefix`.
pub open spec fn begins_with(s: Seq<char>, prefix: Seq<char>) -> bool {
    prefix.len() <= s.len() && s.take(prefix.len() as int) == prefix
}

/// `needle` stands in `s` at position `at`.
pub open spec fn stands_at(s: Seq<char>, needle: Seq<char>, at: int) -> bool {
    0 <= at && at + needle.len() <= s.len() && s.subrange(at, at + needle.len()) == needle
}

/// `needle` stands somewhere in `s`.
pub open spec fn has_substring(s: Seq<char>, needle: Seq<char>) -> bool {
    exists|at: int| stands_at(s, needle, at)
}

/// Whether `needle` stands in `s` at `at`.
pub fn matches_at(s: &[char], needle: &[char], at: usize) -> (r: bool)
    requires
        at <= s.len(),
    ensures
        r == stands_at(s@, needle@, at as int),
{
    if needle.len() > s.len() - at {
        return false;
    }
    let mut i: usize = 0;
    while i < needle.len()
        invariant
            i <= needle.len(),
            at + needle.len() <= s.len(),
            forall|k: int| 0 <= k < i ==> s@[at + k] == needle@[k],
        decreases needle.len() - i,
    {
        if s[at + i] != needle[i] {
            proof {
                assert(s@.subrange(at as int, at + needle@.len())[i as int] == s@[at + i]);
            }
            return false;
        }
        i = i + 1;
    }
    proof {
        assert(s@.subrange(at as int, at + needle@.len()) =~= needle@);
    }
    true
}

/// Whether `s` begins with `prefix`.
pub fn has_prefix(s: &[char], prefix: &[char]) -> (r: bool)
    ensures
        r == begins_with(s@, prefix@),
{
    let r = matches_at(s, prefix, 0);
    proof {
        if prefix@.len() <= s@.len() {
            assert(s@.subrange(0, prefix@.len() as int) =~= s@.take(prefix@.len() as int));
        }
    }
    r
}

/// Whether `needle` stands somewhere in `s`.
pub fn contains_chars(s: &[char], needle: &[char]) -> (r: bool)
    ensures
        r == has_substring(s@, needle@),
{
    let mut at: usize = 0;
    while at <= s.len()
        invariant
            at <= s.len() + 1,
            forall|k: int| 0 <= k < at ==> !stands_at(s@, needle@, k),
        decreases s.len() + 1 - at,
    {
        if matches_at(s, needle, at) {
            return true;
        }
        if at == s.len() {
            return false;
        }
        at = at + 1;
    }
    false
}

/// Where `c` stands first in `s`, at or after `from`.
pub open spec fn first_at(s: Seq<char>, c: char, from: int) -> Option<int>
    decreases s.len() - from,
{
    if from < 0 || from >= s.len() {
        None
    } else if s[from] == c {
        Some(from)
    } else {
        first_at(s, c, from + 1)
    }
}

/// The first place of a character has it, no earlier place does, and there is none only
/// where no place has it.
pub proof fn law_first_place(s: Seq<char>, c: char, from: int)
    requires
        0 <= from <= s.len(),
    ensures
        match first_at(s, c, from) {
            Some(i) => from <= i < s.len() && s[i] == c && forall|k: int|
                from <= k < i ==> #[trigger] s[k] != c,
            None => forall|k: int| from <= k < s.len() ==> #[trigger] s[k] != c,
        },
    decreases s.len() - from,
{
    if from < s.len() && s[from] != c {
        law_first_place(s, c, from + 1);
    }
}

/// Where `c` stands first in `s`.
pub fn find_char(s: &[char], c: char) -> (r: Option<usize>)
    ensures
        match r {
            Some(i) => i < s.len() && first_at(s@, c, 0) == Some(i as int) && s@[i as int] == c,
            None => first_at(s@, c, 0) is None,
        },
{
    let mut i: usize = 0;
    while i < s.len()
        invariant
            i <= s.len(),
            first_at(s@, c, 0) == first_at(s@, c, i as int),
        decreases s.len() - i,
    {
        if s[i] == c {
            return Some(i);
        }
        i = i + 1;
    }
    None
}

/// Where `c` stands last in `s`, before `end`.
pub open spec fn last_before(s: Seq<char>, c: char, end: int) -> Option<int>
    decreases end,
{
    if end <= 0 || end > s.len() {
        None
    } else if s[end - 1] == c {
        Some(end - 1)
    } else {
        last_before(s, c, end - 1)
    }
}

/// The last place of a character has it, no later place does, and there is none only
/// where no place has it.
pub proof fn law_last_place(s: Seq<char>, c: char, end: int)
    requires
        0 <= end <= s.len(),
    ensures
        match last_before(s, c, end) {
            Some(i) => 0 <= i < end && s[i] == c && forall|k: int|
                i < k < end ==> #[trigger] s[k] != c,
            None => forall|k: int| 0 <= k < end ==> #[trigger] s[k] != c,
        },
    decreases end,
{
    if end > 0 && s[end - 1] != c {
        law_last_place(s, c, end - 1);
    }
}

/// Where `c` stands last in `s`.
pub fn find_last_char(s: &[char], c: char) -> (r: Option<usize>)
    ensures
        match r {
            Some(i) => i < s.len() && last_before(s@, c, s@.len() as int) == Some(i as int)
                && s@[i as int] == c,
            None => last_before(s@, c, s@.len() as int) is None,
        },
{
    let mut i: usize = s.len();
    while i > 0
        invariant
            i <= s.len(),
            last_before(s@, c, s@.len() as int) == last_before(s@, c, i as int),
        decreases i,
    {
        if s[i - 1] == c {
            return Some(i - 1);
        }
        i = i - 1;
    }
    None
}

/// An ASCII capital letter in lower case; any other character as it is.
pub open spec fn lower_case(c: char) -> char {
    if 'A' <= c <= 'Z' {
        ((c as u8) + 32) as u8 as char
    } else {
        c
    }
}

/// `s` with its ASCII capital letters in lower case.
pub open spec fn lowered(s: Seq<char>) -> Seq<char> {
    s.map_values(|c: char| lower_case(c))
}

/// Lower case changes the ASCII capital letters alone, each to the letter 32 places behind
/// it, and leaves the length.
pub proof fn law_lower_case(s: Seq<char>, i: int)
    requires
        0 <= i < s.len(),
    ensures
        lowered(s).len() == s.len(),
        65 <= s[i] as int <= 90 ==> lowered(s)[i] as int == s[i] as int + 32,
        s[i] as int <= 64 || s[i] as int >= 91 ==> lowered(s)[i] == s[i],
{
}

/// A text stands in itself with anything around it, and what stands at the front is what a
/// text begins with.
pub proof fn law_substrings(front: Seq<char>, s: Seq<char>, back: Seq<char>)
    ensures
        has_substring(front + s + back, s),
        begins_with(s + back, s),
        begins_with(front + back, front),
{
    assert((front + s + back).subrange(front.len() as int, (front.len() + s.len()) as int) =~= s);
    assert(stands_at(front + s + back, s, front.len() as int));
    assert((s + back).take(s.len() as int) =~= s);
    assert((front + back).take(front.len() as int) =~= front);
}

fn lower_char(c: char) -> (r: char)
    ensures
        r == lower_case(c),
{
    if 'A' <= c && c <= 'Z' {
        (c as u8 + 32) as char
    } else {
        c
    }
}

/// The characters of `s` with its ASCII capital letters in lower case.
pub fn lower_chars(s: &[char]) -> (r: Vec<char>)
    ensures
        r@ == lowered(s@),
{
    let mut out: Vec<char> = Vec::new();
    let mut i: usize = 0;
    while i < s.len()
        invariant
            i <= s.len(),
            out.len() == i,
            forall|k: int| 0 <= k < i ==> out@[k] == lower_case(s@[k]),
        decreases s.len() - i,
    {
        out.push(lower_char(s[i]));
        i = i + 1;
    }
    proof {
        assert(out@ =~= lowered(s@));
    }
    out
}

// ---------------------------------------------------------------------------
// Numbers
// ---------------------------------------------------------------------------

/// What `c` is worth as a digit, in bases up to sixteen.
pub open spec fn digit_value(c: char, radix: nat) -> Option<nat> {
    let v: int = if '0' <= c <= '9' {
        c as int - '0' as int
    } else if 'a' <= c <= 'f' {
        c as int - 'a' as int + 10
    } else if 'A' <= c <= 'F' {
        c as int - 'A' as int + 10
    } else {
        99
    };
    if v < radix {
        Some(v as nat)
    } else {
        None
    }
}

/// Every character is a digit.
pub open spec fn all_digits(s: Seq<char>, radix: nat) -> bool {
    forall|i: int| 0 <= i < s.len() ==> digit_value(#[trigger] s[i], radix) is Some
}

/// The number that the digits write.
pub open spec fn number_value(s: Seq<char>, radix: nat) -> nat
    decreases s.len(),
{
    if s.len() == 0 {
        0
    } else {
        number_value(s.drop_last(), radix) * radix + digit_value(s.last(), radix).unwrap_or(0)
    }
}

/// The digits of an unsigned number, without the `+` that may stand before them.
pub open spec fn without_plus(s: Seq<char>) -> Seq<char> {
    if s.len() > 0 && s[0] == '+' {
        s.drop_first()
    } else {
        s
    }
}

/// The unsigned number that `s` writes, if it writes one that is at most `max`:
/// one digit or more, with at most one `+` before them and nothing else.
pub open spec fn parsed(s: Seq<char>, radix: nat, max: nat) -> Option<nat> {
    let digits = without_plus(s);
    if digits.len() > 0 && all_digits(digits, radix) && number_value(digits, radix) <= max {
        Some(number_value(digits, radix))
    } else {
        None
    }
}

proof fn lemma_value_grows(s: Seq<char>, k: int, radix: nat)
    requires
        0 <= k <= s.len(),
        radix >= 1,
    ensures
        number_value(s.take(k), radix) <= number_value(s, radix),
    decreases s.len(),
{
    if k == s.len() {
        assert(s.take(k) =~= s);
    } else {
        lemma_value_grows(s.drop_last(), k, radix);
        assert(s.drop_last().take(k) =~= s.take(k));
        let v = number_value(s.drop_last(), radix);
        assert(v <= v * radix) by (nonlinear_arith)
            requires
                radix >= 1,
        ;
    }
}

fn digit_of(c: char, radix: u64) -> (r: Option<u64>)
    requires
        1 <= radix <= 16,
    ensures
        match r {
            Some(v) => digit_value(c, radix as nat) == Some(v as nat),
            None => digit_value(c, radix as nat) is None,
        },
{
    let v: u64 = if '0' <= c && c <= '9' {
        c as u64 - '0' as u64
    } else if 'a' <= c && c <= 'f' {
        c as u64 - 'a' as u64 + 10
    } else if 'A' <= c && c <= 'F' {
        c as u64 - 'A' as u64 + 10
    } else {
        99
    };
    if v < radix {
        Some(v)
    } else {
        None
    }
}

/// The unsigned number that `s` writes in base `radix`, if it is at most `max`.
pub fn parse_number(s: &[char], radix: u64, max: u64) -> (r: Option<u64>)
    requires
        1 <= radix <= 16,
    ensures
        match r {
            Some(v) => parsed(s@, radix as nat, max as nat) == Some(v as nat),
            None => parsed(s@, radix as nat, max as nat) is None,
        },
{
    let start: usize = if s.len() > 0 && s[0] == '+' {
        1
    } else {
        0
    };
    let ghost digits = without_plus(s@);
    proof {
        assert(digits =~= s@.skip(start as int));
    }
    if start == s.len() {
        return None;
    }
    let mut acc: u64 = 0;
    let mut i: usize = start;
    proof {
        assert(digits.take(0).len() == 0);
    }
    while i < s.len()
        invariant
            start <= i <= s.len(),
            1 <= radix <= 16,
            digits == s@.skip(start as int),
            digits == without_plus(s@),
            acc == number_value(digits.take(i - start), radix as nat),
            acc <= max,
            forall|k: int|
                0 <= k < i - start ==> digit_value(#[trigger] digits[k], radix as nat) is Some,
        decreases s.len() - i,
    {
        let ghost k = i - start;
        proof {
            assert(digits[k] == s@[i as int]);
        }
        let d: u64 = match digit_of(s[i], radix) {
            Some(d) => d,
            None => {
                return None;
            },
        };
        proof {
            assert(digits.take(k + 1).drop_last() =~= digits.take(k));
            assert(digits.take(k + 1).last() == digits[k]);
            assert(acc * radix <= 0xFFFF_FFFF_FFFF_FFFF * 16) by (nonlinear_arith)
                requires
                    acc <= 0xFFFF_FFFF_FFFF_FFFF,
                    1 <= radix <= 16,
            ;
        }
        let next: u128 = acc as u128 * radix as u128 + d as u128;
        if next > max as u128 {
            proof {
                lemma_value_grows(digits, k + 1, radix as nat);
            }
            return None;
        }
        acc = next as u64;
        i = i + 1;
    }
    proof {
        assert(digits.take(digits.len() as int) =~= digits);
    }
    Some(acc)
}

/// What a digit is worth: in base ten the characters from `0` to `9` count up from zero and
/// nothing else is a digit; in base sixteen the letters from `a` to `f` go on from ten, in
/// capitals too.
pub proof fn law_digits(c: char)
    ensures
        48 <= c as int <= 57 ==> digit_value(c, 10) == Some((c as int - 48) as nat) && digit_value(
            c,
            16,
        ) == Some((c as int - 48) as nat),
        (c as int) < 48 || (c as int) > 57 ==> digit_value(c, 10) is None,
        97 <= c as int <= 102 ==> digit_value(c, 16) == Some((c as int - 87) as nat),
        65 <= c as int <= 70 ==> digit_value(c, 16) == Some((c as int - 55) as nat),
        (c as int) < 48 || 57 < (c as int) < 65 || 70 < (c as int) < 97 || (c as int) > 102
            ==> digit_value(c, 16) is None,
{
}

/// One more digit makes a number `radix` times as large and adds the digit; a number above
/// the bound is none, and so is a text with anything in it that is no digit, but for one `+`
/// in front, which changes nothing.
pub proof fn law_reading_numbers(s: Seq<char>, c: char, radix: nat, max: nat)
    requires
        1 <= radix <= 16,
    ensures
        parsed(seq![], radix, max) is None,
        parsed(seq!['+'], radix, max) is None,
        parsed(seq![c], radix, max) == match digit_value(c, radix) {
            Some(d) => if d <= max {
                Some(d)
            } else {
                None
            },
            None => None,
        },
        s.len() > 0 && s[0] != '+' ==> parsed(seq!['+'] + s, radix, max) == parsed(s, radix, max),
        s.len() > 0 && s != seq!['+'] ==> parsed(s.push(c), radix, max) == match (
            parsed(s, radix, max),
            digit_value(c, radix),
        ) {
            (Some(v), Some(d)) => if v * radix + d <= max {
                Some(v * radix + d)
            } else {
                None
            },
            _ => None,
        },
{
    let empty = Seq::<char>::empty();
    assert(without_plus(seq!['+']) =~= empty);
    let one = seq![c];
    if c != '+' {
        assert(without_plus(one) == one);
        assert(one.drop_last() =~= empty);
        assert(one[0] == c);
        assert(number_value(one.drop_last(), radix) == 0);
        assert(0 * radix == 0) by (nonlinear_arith);
    } else {
        assert(one =~= seq!['+']);
    }
    if s.len() > 0 && s[0] != '+' {
        assert((seq!['+'] + s).drop_first() =~= s);
    }
    if s.len() > 0 && s != seq!['+'] {
        let t = s.push(c);
        let d = without_plus(s);
        let e = without_plus(t);
        if s[0] == '+' {
            assert(e =~= d.push(c));
            if d.len() == 0 {
                assert(s =~= seq!['+']);
            }
        }
        assert(e == d.push(c));
        assert(e.drop_last() =~= d);
        lemma_value_grows(e, d.len() as int, radix);
        assert(e.take(d.len() as int) =~= d);
        if all_digits(e, radix) {
            assert forall|i: int| 0 <= i < d.len() implies digit_value(
                #[trigger] d[i],
                radix,
            ) is Some by {
                assert(e[i] == d[i]);
            }
            assert(digit_value(e[d.len() as int], radix) is Some);
        } else if all_digits(d, radix) && digit_value(c, radix) is Some {
            assert forall|i: int| 0 <= i < e.len() implies digit_value(
                #[trigger] e[i],
                radix,
            ) is Some by {
                if i < d.len() {
                    assert(e[i] == d[i]);
                }
            }
        }
    }
}

/// A text with a character in it that is no digit is no number, unless that is a `+` at
/// the very front.
pub proof fn law_no_number(s: Seq<char>, i: int, radix: nat, max: nat)
    requires
        0 <= i < s.len(),
        digit_value(s[i], radix) is None,
        i > 0 || s[i] != '+',
    ensures
        parsed(s, radix, max) is None,
{
    let d = without_plus(s);
    if s[0] == '+' {
        assert(d[i - 1] == s[i]);
    }
}

/// The digit character for a value below ten.
pub open spec fn digit_char(d: nat) -> char {
    ('0' as u8 + d) as u8 as char
}

/// `n` in decimal, without leading zeros.
pub open spec fn decimal(n: nat) -> Seq<char>
    decreases n,
{
    if n < 10 {
        seq![digit_char(n)]
    } else {
        decimal(n / 10).push(digit_char(n % 10))
    }
}

/// `n` in decimal, with `fill` in front up to `width` characters.
pub open spec fn padded(n: nat, width: nat, fill: char) -> Seq<char> {
    let digits = decimal(n);
    if digits.len() >= width {
        digits
    } else {
        Seq::new((width - digits.len()) as nat, |i: int| fill) + digits
    }
}

fn push_digit(out: &mut String, d: u64)
    requires
        d < 10,
    ensures
        final(out)@ == old(out)@.push(digit_char(d as nat)),
{
    out.push((48 + d as u8) as char);
}

/// Appends `n` in decimal.
pub fn push_decimal(out: &mut String, n: u64)
    ensures
        final(out)@ == old(out)@ + decimal(n as nat),
    decreases n,
{
    let ghost before = out@;
    if n < 10 {
        push_digit(out, n);
        proof {
            assert(out@ =~= before + decimal(n as nat));
        }
    } else {
        push_decimal(out, n / 10);
        push_digit(out, n % 10);
        proof {
            assert(out@ =~= before + decimal(n as nat));
        }
    }
}

/// Appends `n` in decimal, with `fill` in front up to `width` characters.
pub fn push_padded(out: &mut String, n: u64, width: usize, fill: char)
    ensures
        final(out)@ == old(out)@ + padded(n as nat, width as nat, fill),
{
    let ghost before = out@;
    let digits = chars_of(decimal_string(n).as_str());
    let mut i: usize = digits.len();
    while i < width
        invariant
            digits@ == decimal(n as nat),
            digits.len() <= i,
            digits.len() >= width ==> i == digits.len(),
            digits.len() < width ==> i <= width,
            out@ == before + Seq::new((i - digits.len()) as nat, |k: int| fill),
        decreases width - i,
    {
        out.push(fill);
        i = i + 1;
        proof {
            assert(out@ =~= before + Seq::new((i - digits.len()) as nat, |k: int| fill));
        }
    }
    let rest = string_of(&digits);
    out.append(rest.as_str());
    proof {
        assert(out@ =~= before + padded(n as nat, width as nat, fill));
    }
}

/// `n` in decimal.
pub fn decimal_string(n: u64) -> (r: String)
    ensures
        r@ == decimal(n as nat),
{
    let mut out = String::new();
    push_decimal(&mut out, n);
    proof {
        assert(out@ =~= decimal(n as nat));
    }
    out
}

/// Reading back what was written in decimal gives the number.
pub proof fn law_decimal_round_trip(n: nat, max: nat)
    requires
        n <= max,
    ensures
        parsed(decimal(n), 10, max) == Some(n),
{
    lemma_decimal_digits(n);
    assert(decimal(n)[0] != '+');
}

/// A number in decimal: its last character is the digit of its ones, what stands before it
/// is the number of its tens, and no number but zero starts with a zero.
pub proof fn law_decimal_digits(n: nat)
    ensures
        decimal(n).len() > 0,
        decimal(n).last() as int == 48 + n % 10,
        n >= 10 ==> decimal(n).drop_last() == decimal(n / 10),
        n < 10 ==> decimal(n).len() == 1,
        n > 0 ==> decimal(n)[0] != '0',
    decreases n,
{
    if n >= 10 {
        law_decimal_digits(n / 10);
        assert(decimal(n).drop_last() =~= decimal(n / 10));
    }
}

/// Different numbers are written differently.
pub proof fn law_decimal_tells_apart(a: nat, b: nat)
    ensures
        decimal(a) == decimal(b) <==> a == b,
{
    law_decimal_round_trip(a, a + b);
    law_decimal_round_trip(b, a + b);
}

/// A padded number is as wide as was asked for, or as its digits need; it ends with the
/// number, and what stands before that is the fill.
pub proof fn law_padding(n: nat, width: nat, fill: char)
    ensures
        ({
            let p = padded(n, width, fill);
            let d = decimal(n).len();
            &&& p.len() == if d < width {
                width
            } else {
                d
            }
            &&& p.skip(p.len() - d) == decimal(n)
            &&& forall|i: int| 0 <= i < p.len() - d ==> #[trigger] p[i] == fill
        }),
{
    let p = padded(n, width, fill);
    assert(p.skip(p.len() - decimal(n).len()) =~= decimal(n));
}

/// What is written in decimal is digits, and they write the number.
pub proof fn lemma_decimal_digits(n: nat)
    ensures
        decimal(n).len() > 0,
        all_digits(decimal(n), 10),
        number_value(decimal(n), 10) == n,
        '0' <= decimal(n)[0] <= '9',
    decreases n,
{
    let s = decimal(n);
    if n < 10 {
        assert(s.drop_last().len() == 0);
        assert(number_value(s.drop_last(), 10) == 0);
    } else {
        lemma_decimal_digits(n / 10);
        assert(s.drop_last() =~= decimal(n / 10));
        assert(digit_value(digit_char(n % 10), 10) == Some(n % 10));
    }
}

/// What is written in decimal has no white space at either end.
pub proof fn lemma_decimal_is_trimmed(n: nat)
    ensures
        decimal(n).len() > 0,
        trimmed(decimal(n)) == decimal(n),
{
    lemma_decimal_digits(n);
    let s = decimal(n);
    assert(digit_value(s[0], 10) is Some);
    assert(digit_value(s[s.len() - 1], 10) is Some);
}

/// One hexadecimal digit.
pub open spec fn hex_digit(d: nat) -> char {
    if d < 10 {
        ('0' as u8 + d) as u8 as char
    } else {
        ('a' as u8 + (d - 10)) as u8 as char
    }
}

/// The last `n` digits of `v` in hexadecimal, in small letters.
pub open spec fn hex(v: nat, n: nat) -> Seq<char>
    decreases n,
{
    if n == 0 {
        seq![]
    } else {
        hex(v / 16, (n - 1) as nat).push(hex_digit(v % 16))
    }
}

/// A number in hexadecimal has the digits that were asked for, in small letters, and reads
/// back as the number where they suffice.
pub proof fn law_hex_digits(v: nat, n: nat)
    ensures
        hex(v, n).len() == n,
        n > 0 ==> digit_value(hex(v, n).last(), 16) == Some(v % 16) && hex(v, n).drop_last() == hex(
            v / 16,
            (n - 1) as nat,
        ),
        forall|i: int|
            0 <= i < n ==> '0' <= #[trigger] hex(v, n)[i] <= '9' || 'a' <= hex(v, n)[i] <= 'f',
    decreases n,
{
    if n > 0 {
        law_hex_digits(v / 16, (n - 1) as nat);
        let front = hex(v / 16, (n - 1) as nat);
        assert(hex(v, n).drop_last() =~= front);
        assert forall|i: int| 0 <= i < n implies '0' <= #[trigger] hex(v, n)[i] <= '9' || 'a'
            <= hex(v, n)[i] <= 'f' by {
            if i < n - 1 {
                assert(hex(v, n)[i] == front[i]);
            }
        }
    }
}

/// A number that the digits suffice for reads back from them.
pub proof fn lemma_hex_reads_back(v: nat, n: nat)
    requires
        v < vstd::arithmetic::power::pow(16, n),
    ensures
        number_value(hex(v, n), 16) == v,
    decreases n,
{
    reveal(vstd::arithmetic::power::pow);
    if n > 0 {
        law_hex_digits(v, n);
        lemma_hex_reads_back(v / 16, (n - 1) as nat);
    }
}

/// An octet reads back from its two hexadecimal digits.
pub proof fn law_hex_octets(v: nat)
    requires
        v < 256,
    ensures
        parsed(hex(v, 2), 16, 255) == Some(v),
{
    law_hex_digits(v, 2);
    law_hex_digits(v / 16, 1);
    let s = hex(v, 2);
    let front = s.drop_last();
    assert(front.drop_last().len() == 0);
    assert(s.last() == s[1]);
    assert(front.last() == s[0]);
    assert(s[0] != '+');
    assert(all_digits(s, 16));
    reveal_with_fuel(number_value, 3);
}

/// Appends `v` in hexadecimal, in `n` digits.
pub fn push_hex(out: &mut String, v: u64, n: usize)
    ensures
        final(out)@ == old(out)@ + hex(v as nat, n as nat),
    decreases n,
{
    let ghost before = out@;
    if n > 0 {
        push_hex(out, v / 16, n - 1);
        let d: u8 = (v % 16) as u8;
        if d < 10 {
            out.push((48 + d) as char);
        } else {
            out.push((97 + (d - 10)) as char);
        }
    }
    proof {
        assert(out@ =~= before + hex(v as nat, n as nat));
    }
}

} // verus!
