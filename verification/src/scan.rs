//! Reading fields out of a line of text: finding a separator, trimming white
//! space, reading a number.

use vstd::prelude::*;
use vstd::std_specs::iter::IteratorSpec;
use vstd::string::StringSliceAdditionalSpecFns;
use crate::encoding::{
    byte_len, in_memory, lemma_byte_len_prefix, lemma_byte_len_step, lemma_encode_injective,
    split_text, utf8_width,
};

verus! {

/// The index of the first `c` in `s` at or behind `from`, or the length of `s`
/// where there is none.
pub open spec fn find(s: Seq<char>, c: char, from: int) -> int
    decreases s.len() - from,
{
    if from < 0 || from >= s.len() {
        s.len() as int
    } else if s[from] == c {
        from
    } else {
        find(s, c, from + 1)
    }
}

/// Whether `c` occurs in `s`.
pub open spec fn occurs(s: Seq<char>, c: char) -> bool {
    find(s, c, 0) < s.len()
}

/// What stands in `s` before the first `c`.
pub open spec fn before(s: Seq<char>, c: char) -> Seq<char> {
    s.take(find(s, c, 0))
}

/// What stands in `s` behind the first `c`.
pub open spec fn after(s: Seq<char>, c: char) -> Seq<char> {
    s.skip(find(s, c, 0) + 1)
}

/// A stretch without `c` does not stop the search.
pub proof fn lemma_find_run(s: Seq<char>, c: char, from: int, n: int)
    requires
        0 <= from,
        0 <= n,
        from + n <= s.len(),
        forall|j: int| from <= j < from + n ==> s[j] != c,
    ensures
        find(s, c, from) == find(s, c, from + n),
    decreases n,
{
    if n > 0 {
        lemma_find_run(s, c, from + 1, n - 1);
    }
}

/// White space, as Unicode defines it.
pub open spec fn is_space(c: char) -> bool {
    let v = c as u32;
    (0x09 <= v <= 0x0d) || v == 0x20 || v == 0x85 || v == 0xa0 || v == 0x1680 || (0x2000 <= v
        <= 0x200a) || v == 0x2028 || v == 0x2029 || v == 0x202f || v == 0x205f || v == 0x3000
}

/// `s` without the white space at its start.
pub open spec fn trim_start(s: Seq<char>) -> Seq<char>
    decreases s.len(),
{
    if s.len() > 0 && is_space(s[0]) {
        trim_start(s.drop_first())
    } else {
        s
    }
}

/// `s` without the white space at its end.
pub open spec fn trim_end(s: Seq<char>) -> Seq<char>
    decreases s.len(),
{
    if s.len() > 0 && is_space(s.last()) {
        trim_end(s.drop_last())
    } else {
        s
    }
}

/// `s` without the white space at its start and at its end.
pub open spec fn trimmed(s: Seq<char>) -> Seq<char> {
    trim_end(trim_start(s))
}

/// A decimal digit.
pub open spec fn is_digit(c: char) -> bool {
    0x30 <= c as u32 <= 0x39
}

/// The number that the decimal digits `s` write.
pub open spec fn digits_value(s: Seq<char>) -> nat
    decreases s.len(),
{
    if s.len() == 0 {
        0
    } else {
        digits_value(s.drop_last()) * 10 + ((s.last() as u32 - 0x30) as nat)
    }
}

/// Whether `s` holds decimal digits only.
pub open spec fn all_digits(s: Seq<char>) -> bool {
    forall|i: int| 0 <= i < s.len() ==> is_digit(#[trigger] s[i])
}

/// `s` without a `+` at its start.
pub open spec fn unsigned(s: Seq<char>) -> Seq<char> {
    if s.len() > 0 && s[0] == '+' {
        s.skip(1)
    } else {
        s
    }
}

/// The number that `s` writes: decimal digits, at least one, behind at most
/// one `+`, and no more than 32 bits can hold.
pub open spec fn number(s: Seq<char>) -> Option<u32> {
    let d = unsigned(s);
    if d.len() > 0 && all_digits(d) && digits_value(d) <= u32::MAX {
        Some(digits_value(d) as u32)
    } else {
        None
    }
}

/// More digits write no smaller a number.
pub proof fn lemma_digits_monotone(s: Seq<char>, k: int)
    requires
        0 <= k <= s.len(),
        all_digits(s),
    ensures
        digits_value(s.take(k)) <= digits_value(s),
    decreases s.len() - k,
{
    if k < s.len() {
        lemma_digits_monotone(s, k + 1);
        assert(s.take(k + 1).drop_last() =~= s.take(k));
    } else {
        assert(s.take(k) =~= s);
    }
}

/// Whether `c` is white space.
pub fn space(c: char) -> (r: bool)
    ensures
        r == is_space(c),
{
    let v: u32 = c as u32;
    (0x09 <= v && v <= 0x0d) || v == 0x20 || v == 0x85 || v == 0xa0 || v == 0x1680 || (0x2000 <= v
        && v <= 0x200a) || v == 0x2028 || v == 0x2029 || v == 0x202f || v == 0x205f || v == 0x3000
}

/// Whether two strings hold the same text.
pub fn same_text(a: &str, b: &str) -> (r: bool)
    ensures
        r == (a@ == b@),
{
    let x = a.as_bytes();
    let y = b.as_bytes();
    if x.len() != y.len() {
        return false;
    }
    let mut i: usize = 0;
    while i < x.len()
        invariant
            i <= x.len(),
            x.len() == y.len(),
            x@ == a.spec_bytes(),
            y@ == b.spec_bytes(),
            forall|j: int| 0 <= j < i ==> x@[j] == y@[j],
        decreases x.len() - i,
    {
        if x[i] != y[i] {
            return false;
        }
        i = i + 1;
    }
    proof {
        assert(x@ =~= y@);
        lemma_encode_injective(a@, b@);
    }
    true
}

/// The number of scalar values in `s`.
pub fn count_chars(s: &str) -> (r: usize)
    ensures
        r == s@.len(),
{
    broadcast use vstd::string::group_string_axioms;

    in_memory(s);
    let mut n: usize = 0;
    let mut it = s.chars();
    proof {
        lemma_byte_len_prefix(s@, s@.len() as int);
    }
    loop
        invariant
            0 <= n <= s@.len(),
            it.remaining() == s@.skip(n as int),
            it.obeys_prophetic_iter_laws(),
            it.decrease() is Some,
            s@.len() <= usize::MAX,
        ensures
            n == s@.len(),
        decreases it.decrease()->0,
    {
        match it.next() {
            None => {
                break ;
            },
            Some(c) => {
                n = n + 1;
            },
        }
    }
    n
}

/// Cuts `s` at its first `c`: what stands before it and what stands behind
/// it, or nothing where `s` holds no `c`.
pub fn split_once<'a>(s: &'a str, c: char) -> (r: Option<(&'a str, &'a str)>)
    ensures
        match r {
            Some((head, tail)) => occurs(s@, c) && head@ == before(s@, c) && tail@ == after(s@, c),
            None => !occurs(s@, c),
        },
{
    broadcast use vstd::string::group_string_axioms;

    in_memory(s);
    let mut bytes: usize = 0;
    let ghost mut k: int = 0;
    let mut it = s.chars();
    loop
        invariant
            0 <= k <= s@.len(),
            it.remaining() == s@.skip(k),
            bytes == byte_len(s@.take(k)),
            forall|j: int| 0 <= j < k ==> s@[j] != c,
            it.obeys_prophetic_iter_laws(),
            it.decrease() is Some,
            byte_len(s@) <= usize::MAX,
        decreases it.decrease()->0,
    {
        match it.next() {
            None => {
                proof {
                    lemma_find_run(s@, c, 0, k);
                }
                return None;
            },
            Some(x) => {
                proof {
                    lemma_byte_len_step(s@, k);
                    lemma_byte_len_prefix(s@, k + 1);
                }
                let next = bytes + utf8_width(x);
                if x == c {
                    proof {
                        lemma_find_run(s@, c, 0, k);
                    }
                    let (head, _) = split_text(s, bytes, Ghost(k));
                    let (_, tail) = split_text(s, next, Ghost(k + 1));
                    return Some((head, tail));
                }
                bytes = next;
                proof {
                    k = k + 1;
                }
            },
        }
    }
}

/// `s` without the white space at its start.
pub fn trim_left<'a>(s: &'a str) -> (r: &'a str)
    ensures
        r@ == trim_start(s@),
{
    broadcast use vstd::string::group_string_axioms;

    in_memory(s);
    let mut bytes: usize = 0;
    let ghost mut k: int = 0;
    let mut it = s.chars();
    loop
        invariant_except_break
            it.remaining() == s@.skip(k),
            trim_start(s@) == trim_start(s@.skip(k)),
        invariant
            0 <= k <= s@.len(),
            bytes == byte_len(s@.take(k)),
            it.obeys_prophetic_iter_laws(),
            it.decrease() is Some,
            byte_len(s@) <= usize::MAX,
        ensures
            0 <= k <= s@.len(),
            bytes == byte_len(s@.take(k)),
            trim_start(s@) == s@.skip(k),
        decreases it.decrease()->0,
    {
        match it.next() {
            None => {
                break ;
            },
            Some(x) => {
                proof {
                    assert(s@.skip(k).drop_first() =~= s@.skip(k + 1));
                }
                if !space(x) {
                    break ;
                }
                proof {
                    lemma_byte_len_step(s@, k);
                    lemma_byte_len_prefix(s@, k + 1);
                }
                bytes = bytes + utf8_width(x);
                proof {
                    k = k + 1;
                }
            },
        }
    }
    let (_, tail) = split_text(s, bytes, Ghost(k));
    tail
}

/// `s` without the white space at its end.
pub fn trim_right<'a>(s: &'a str) -> (r: &'a str)
    ensures
        r@ == trim_end(s@),
{
    broadcast use vstd::string::group_string_axioms;

    in_memory(s);
    let mut bytes: usize = 0;
    let mut kept: usize = 0;
    let ghost mut k: int = 0;
    let ghost mut keep: int = 0;
    let mut it = s.chars();
    loop
        invariant
            0 <= keep <= k <= s@.len(),
            it.remaining() == s@.skip(k),
            bytes == byte_len(s@.take(k)),
            kept == byte_len(s@.take(keep)),
            trim_end(s@.take(k)) == s@.take(keep),
            it.obeys_prophetic_iter_laws(),
            it.decrease() is Some,
            byte_len(s@) <= usize::MAX,
        ensures
            0 <= keep <= s@.len(),
            kept == byte_len(s@.take(keep)),
            trim_end(s@) == s@.take(keep),
        decreases it.decrease()->0,
    {
        match it.next() {
            None => {
                proof {
                    assert(s@.take(k) =~= s@);
                }
                break ;
            },
            Some(x) => {
                proof {
                    lemma_byte_len_step(s@, k);
                    lemma_byte_len_prefix(s@, k + 1);
                    assert(s@.take(k + 1).drop_last() =~= s@.take(k));
                }
                bytes = bytes + utf8_width(x);
                proof {
                    k = k + 1;
                }
                if !space(x) {
                    kept = bytes;
                    proof {
                        keep = k;
                    }
                }
            },
        }
    }
    let (head, _) = split_text(s, kept, Ghost(keep));
    head
}

/// `s` without the white space at its start and at its end.
pub fn trim<'a>(s: &'a str) -> (r: &'a str)
    ensures
        r@ == trimmed(s@),
{
    trim_right(trim_left(s))
}

/// Reads the number that `s` writes.
pub fn parse_number(s: &str) -> (r: Option<u32>)
    ensures
        r == number(s@),
{
    broadcast use vstd::string::group_string_axioms;

    let mut value: u32 = 0;
    let mut seen: usize = 0;
    let mut first: bool = true;
    let ghost mut k: int = 0;
    let ghost mut from: int = 0;
    in_memory(s);
    let mut it = s.chars();
    proof {
        assert(s@.skip(0) =~= s@);
        lemma_byte_len_prefix(s@, s@.len() as int);
    }
    loop
        invariant
            0 <= from <= k <= s@.len(),
            it.remaining() == s@.skip(k),
            first <==> k == 0,
            from <= 1,
            from == 1 ==> s@[0] == '+',
            from == 0 && k > 0 ==> s@[0] != '+',
            seen == k - from,
            all_digits(s@.subrange(from, k)),
            value == digits_value(s@.subrange(from, k)),
            it.obeys_prophetic_iter_laws(),
            it.decrease() is Some,
            s@.len() <= usize::MAX,
        ensures
            k == s@.len(),
            0 <= from <= k,
            from <= 1,
            from == 1 ==> s@[0] == '+',
            from == 0 && k > 0 ==> s@[0] != '+',
            seen == k - from,
            all_digits(s@.subrange(from, k)),
            value == digits_value(s@.subrange(from, k)),
        decreases it.decrease()->0,
    {
        match it.next() {
            None => {
                break ;
            },
            Some(x) => {
                let v: u32 = x as u32;
                if first && x == '+' {
                    first = false;
                    proof {
                        k = 1;
                        from = 1;
                    }
                } else {
                    first = false;
                    let ghost d = unsigned(s@);
                    proof {
                        assert(d[k - from] == x);
                    }
                    if v < 0x30 || v > 0x39 {
                        return None;
                    }
                    let digit: u32 = v - 0x30;
                    proof {
                        let grown = s@.subrange(from, k + 1);
                        assert(grown.drop_last() =~= s@.subrange(from, k));
                        if all_digits(d) {
                            assert(grown =~= d.take(k + 1 - from));
                            lemma_digits_monotone(d, k + 1 - from);
                        }
                    }
                    if value > 429496729 || (value == 429496729 && digit > 5) {
                        return None;
                    }
                    value = value * 10 + digit;
                    seen = seen + 1;
                    proof {
                        k = k + 1;
                    }
                }
            },
        }
    }
    if seen == 0 {
        None
    } else {
        Some(value)
    }
}

} // verus!
