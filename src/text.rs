//! Character-level scanning shared by the kernel-text parsers: blank-separated
//! fields, unsigned decimals, and the first or last occurrence of a character.
use vstd::prelude::*;
use vstd::string::*;

verus! {

pub open spec fn is_blank(c: char) -> bool {
    c == ' ' || c == '\t' || c == '\n' || c == '\r'
}

/// Scanning `k` characters of `s` from `from` on: the spans of the fields
/// closed so far, and where the field now open starts (the current position
/// when none is open).
pub open spec fn scan(s: Seq<char>, from: nat, k: nat) -> (Seq<(int, int)>, int)
    decreases k,
{
    if k == 0 {
        (Seq::empty(), from as int)
    } else {
        let (done, start) = scan(s, from, (k - 1) as nat);
        let i = from + k - 1;
        if is_blank(s[i]) {
            if start < i {
                (done.push((start, i)), i + 1)
            } else {
                (done, i + 1)
            }
        } else {
            (done, start)
        }
    }
}

/// The spans `[a, b)` of the maximal runs of non-blank characters of `s`
/// from position `from` to the end, in order.
pub open spec fn fields(s: Seq<char>, from: nat) -> Seq<(int, int)> {
    let (done, start) = scan(s, from, (s.len() - from) as nat);
    if start < s.len() {
        done.push((start, s.len() as int))
    } else {
        done
    }
}

pub open spec fn is_digit(c: char) -> bool {
    '0' <= c <= '9'
}

pub open spec fn all_digits(t: Seq<char>) -> bool {
    forall|i: int| 0 <= i < t.len() ==> is_digit(#[trigger] t[i])
}

/// The number that a string of decimal digits spells.
pub open spec fn decimal_value(t: Seq<char>) -> int
    decreases t.len(),
{
    if t.len() == 0 {
        0
    } else {
        10 * decimal_value(t.drop_last()) + (t.last() as int - '0' as int)
    }
}

/// `t` spells an unsigned decimal that fits in 64 bits.
pub open spec fn is_u64_decimal(t: Seq<char>) -> bool {
    t.len() > 0 && all_digits(t) && decimal_value(t) <= u64::MAX
}

pub open spec fn is_first(s: Seq<char>, c: char, i: int) -> bool {
    0 <= i < s.len() && s[i] == c && forall|j: int| 0 <= j < i ==> s[j] != c
}

pub open spec fn is_last(s: Seq<char>, c: char, i: int) -> bool {
    0 <= i < s.len() && s[i] == c && forall|j: int| i < j < s.len() ==> s[j] != c
}

/// Position of the first `c` in `s`, or -1.
pub open spec fn first_index(s: Seq<char>, c: char) -> int {
    if exists|i: int| is_first(s, c, i) {
        choose|i: int| is_first(s, c, i)
    } else {
        -1
    }
}

/// Position of the last `c` in `s`, or -1.
pub open spec fn last_index(s: Seq<char>, c: char) -> int {
    if exists|i: int| is_last(s, c, i) {
        choose|i: int| is_last(s, c, i)
    } else {
        -1
    }
}

pub proof fn lemma_decimal_prefix(t: Seq<char>, j: int)
    requires
        all_digits(t),
        0 <= j <= t.len(),
    ensures
        decimal_value(t.subrange(0, j)) <= decimal_value(t),
    decreases t.len() - j,
{
    if j < t.len() {
        let u = t.drop_last();
        assert(all_digits(u)) by {
            assert forall|i: int| 0 <= i < u.len() implies is_digit(#[trigger] u[i]) by {
                assert(u[i] == t[i]);
            }
        }
        lemma_decimal_prefix(u, j);
        assert(u.subrange(0, j) =~= t.subrange(0, j));
        assert(is_digit(t[t.len() - 1]));
        assert(decimal_value(u) >= 0) by {
            lemma_decimal_nonneg(u);
        }
    } else {
        assert(t.subrange(0, j) =~= t);
    }
}

pub proof fn lemma_decimal_nonneg(t: Seq<char>)
    requires
        all_digits(t),
    ensures
        decimal_value(t) >= 0,
    decreases t.len(),
{
    if t.len() > 0 {
        let u = t.drop_last();
        assert(all_digits(u)) by {
            assert forall|i: int| 0 <= i < u.len() implies is_digit(#[trigger] u[i]) by {
                assert(u[i] == t[i]);
            }
        }
        lemma_decimal_nonneg(u);
        assert(is_digit(t[t.len() - 1]));
    }
}

/// Position of the first `c` in `s`, if any.
pub fn find_first(s: &str, c: char) -> (r: Option<usize>)
    ensures
        match r {
            Some(i) => i as int == first_index(s@, c) && is_first(s@, c, i as int),
            None => first_index(s@, c) == -1,
        },
{
    let n = s.unicode_len();
    let mut i: usize = 0;
    while i < n
        invariant
            n == s@.len(),
            i <= n,
            forall|j: int| 0 <= j < i ==> s@[j] != c,
        decreases n - i,
    {
        if s.get_char(i) == c {
            assert(is_first(s@, c, i as int));
            assert(forall|k: int| is_first(s@, c, k) ==> k == i);
            return Some(i);
        }
        i = i + 1;
    }
    assert(!exists|k: int| is_first(s@, c, k));
    None
}

/// Position of the last `c` in `s`, if any.
pub fn find_last(s: &str, c: char) -> (r: Option<usize>)
    ensures
        match r {
            Some(i) => i as int == last_index(s@, c) && is_last(s@, c, i as int),
            None => last_index(s@, c) == -1,
        },
        s@.len() <= usize::MAX,
{
    let n = s.unicode_len();
    let mut i: usize = n;
    while i > 0
        invariant
            n == s@.len(),
            i <= n,
            forall|j: int| i <= j < n ==> s@[j] != c,
        decreases i,
    {
        if s.get_char(i - 1) == c {
            assert(is_last(s@, c, i - 1));
            assert(forall|k: int| is_last(s@, c, k) ==> k == i - 1);
            return Some(i - 1);
        }
        i = i - 1;
    }
    assert(!exists|k: int| is_last(s@, c, k));
    None
}

/// The spans of the blank-separated fields of `s` from `from` on.
pub fn split_fields(s: &str, from: usize) -> (r: Vec<(usize, usize)>)
    requires
        from <= s@.len(),
    ensures
        r@.len() == fields(s@, from as nat).len(),
        forall|k: int|
            0 <= k < r@.len() ==> r@[k].0 as int == (#[trigger] fields(s@, from as nat)[k]).0
                && r@[k].1 as int == fields(s@, from as nat)[k].1,
{
    let n = s.unicode_len();
    let mut done: Vec<(usize, usize)> = Vec::new();
    let mut start: usize = from;
    let mut i: usize = from;
    while i < n
        invariant
            n == s@.len(),
            from <= i <= n,
            start <= i,
            start as int == scan(s@, from as nat, (i - from) as nat).1,
            done@.len() == scan(s@, from as nat, (i - from) as nat).0.len(),
            forall|k: int|
                0 <= k < done@.len() ==> done@[k].0 as int == (#[trigger] scan(
                    s@,
                    from as nat,
                    (i - from) as nat,
                ).0[k]).0 && done@[k].1 as int == scan(s@, from as nat, (i - from) as nat).0[k].1,
        decreases n - i,
    {
        let c = s.get_char(i);
        if c == ' ' || c == '\t' || c == '\n' || c == '\r' {
            if start < i {
                done.push((start, i));
            }
            start = i + 1;
        }
        i = i + 1;
    }
    if start < n {
        done.push((start, n));
    }
    done
}

/// The unsigned decimal spelled by characters `[a, b)` of `s`, if it is one
/// that fits in 64 bits.
pub fn parse_decimal(s: &str, a: usize, b: usize) -> (r: Option<u64>)
    requires
        a <= b <= s@.len(),
    ensures
        match r {
            Some(v) => is_u64_decimal(s@.subrange(a as int, b as int))
                && v == decimal_value(s@.subrange(a as int, b as int)),
            None => !is_u64_decimal(s@.subrange(a as int, b as int)),
        },
{
    let ghost t = s@.subrange(a as int, b as int);
    if a == b {
        return None;
    }
    let mut acc: u64 = 0;
    let mut i: usize = a;
    while i < b
        invariant
            a <= i <= b <= s@.len(),
            t == s@.subrange(a as int, b as int),
            all_digits(t.subrange(0, i - a)),
            acc == decimal_value(t.subrange(0, i - a)),
        decreases b - i,
    {
        let c = s.get_char(i);
        let ghost p = t.subrange(0, i - a);
        let ghost q = t.subrange(0, i - a + 1);
        assert(q.drop_last() =~= p);
        assert(q.last() == c);
        if !('0' <= c && c <= '9') {
            assert(!all_digits(t)) by {
                assert(t[i - a] == c);
            }
            return None;
        }
        let d: u64 = (c as u32 - '0' as u32) as u64;
        assert(all_digits(q)) by {
            assert forall|j: int| 0 <= j < q.len() implies is_digit(#[trigger] q[j]) by {
                if j < p.len() {
                    assert(q[j] == p[j]);
                }
            }
        }
        if acc > (u64::MAX - d) / 10 {
            assert(decimal_value(q) > u64::MAX) by (nonlinear_arith)
                requires
                    decimal_value(q) == 10 * acc + d,
                    acc > (u64::MAX - d) / 10,
                    d <= 9,
            ;
            assert(!is_u64_decimal(t)) by {
                if all_digits(t) {
                    lemma_decimal_prefix(t, i - a + 1);
                }
            }
            return None;
        }
        acc = acc * 10 + d;
        i = i + 1;
    }
    assert(t.subrange(0, b - a) =~= t);
    Some(acc)
}

/// Every field span lies in the text after `from`, and is non-empty.
pub proof fn lemma_fields_within(s: Seq<char>, from: nat)
    requires
        from <= s.len(),
    ensures
        forall|k: int|
            0 <= k < fields(s, from).len() ==> from <= (#[trigger] fields(s, from)[k]).0
                < fields(s, from)[k].1 <= s.len(),
{
    lemma_scan_within(s, from, (s.len() - from) as nat);
}

proof fn lemma_scan_within(s: Seq<char>, from: nat, k: nat)
    requires
        from + k <= s.len(),
    ensures
        from <= scan(s, from, k).1 <= from + k,
        forall|j: int|
            0 <= j < scan(s, from, k).0.len() ==> from <= (
            #[trigger] scan(s, from, k).0[j]).0 < scan(s, from, k).0[j].1
                < scan(s, from, k).1,
    decreases k,
{
    if k > 0 {
        lemma_scan_within(s, from, (k - 1) as nat);
    }
}

} // verus!
