//! Character-level helpers for the text forms of times and slot keys.
use vstd::prelude::*;

verus! {

pub open spec fn is_digit(c: char) -> bool {
    '0' <= c && c <= '9'
}

pub open spec fn digit_value(c: char) -> nat {
    (c as u32 - '0' as u32) as nat
}

/// A numeral is a non-empty run of decimal digits.
pub open spec fn is_numeral(s: Seq<char>) -> bool {
    &&& s.len() > 0
    &&& forall|i: int| 0 <= i < s.len() ==> is_digit(#[trigger] s[i])
}

/// The value of a run of decimal digits, most significant first.
pub open spec fn numeral_value(s: Seq<char>) -> nat
    decreases s.len(),
{
    if s.len() == 0 {
        0
    } else {
        numeral_value(s.drop_last()) * 10 + digit_value(s.last())
    }
}

/// How often `c` occurs in `s`.
pub open spec fn count_char(s: Seq<char>, c: char) -> nat
    decreases s.len(),
{
    if s.len() == 0 {
        0
    } else {
        count_char(s.drop_last(), c) + if s.last() == c { 1nat } else { 0nat }
    }
}

/// The position of the first `c` in `s`, or -1 where there is none.
pub open spec fn index_of(s: Seq<char>, c: char) -> int
    decreases s.len(),
{
    if s.len() == 0 {
        -1
    } else if index_of(s.drop_last(), c) >= 0 {
        index_of(s.drop_last(), c)
    } else if s.last() == c {
        s.len() - 1
    } else {
        -1
    }
}

/// Where `c` occurs in `s`, `index_of` finds it; where it does not, the
/// result is -1.
pub proof fn lemma_index_of_found(s: Seq<char>, c: char)
    ensures
        count_char(s, c) == 0 ==> index_of(s, c) == -1,
        count_char(s, c) > 0 ==> 0 <= index_of(s, c) < s.len() && s[index_of(s, c)] == c,
    decreases s.len(),
{
    if s.len() > 0 {
        lemma_index_of_found(s.drop_last(), c);
    }
}

/// The characters of `s`, with `c` counted and its first position noted.
pub fn scan_for(s: &str, c: char) -> (r: (usize, Option<usize>))
    ensures
        r.0 == count_char(s@, c),
        r.1 == (if index_of(s@, c) >= 0 { Some(index_of(s@, c) as usize) } else { None::<usize> }),
{
    let n = s.unicode_len();
    let mut count: usize = 0;
    let mut first: Option<usize> = None;
    let mut i: usize = 0;
    while i < n
        invariant
            n == s@.len(),
            i <= n,
            count == count_char(s@.subrange(0, i as int), c),
            count <= i,
            first == (if index_of(s@.subrange(0, i as int), c) >= 0 {
                Some(index_of(s@.subrange(0, i as int), c) as usize)
            } else {
                None::<usize>
            }),
            index_of(s@.subrange(0, i as int), c) < i,
        decreases n - i,
    {
        let ch = s.get_char(i);
        proof {
            assert(s@.subrange(0, i + 1).drop_last() =~= s@.subrange(0, i as int));
        }
        if ch == c {
            count = count + 1;
            if first.is_none() {
                first = Some(i);
            }
        }
        i = i + 1;
    }
    proof {
        assert(s@.subrange(0, n as int) =~= s@);
    }
    (count, first)
}

/// Whether two texts hold the same characters.
pub fn same_text(a: &str, b: &str) -> (r: bool)
    ensures
        r == (a@ == b@),
{
    let n = a.unicode_len();
    if n != b.unicode_len() {
        return false;
    }
    let mut i: usize = 0;
    while i < n
        invariant
            n == a@.len() == b@.len(),
            i <= n,
            forall|k: int| 0 <= k < i ==> a@[k] == b@[k],
        decreases n - i,
    {
        if a.get_char(i) != b.get_char(i) {
            return false;
        }
        i = i + 1;
    }
    proof {
        assert(a@ =~= b@);
    }
    true
}

/// Reads the characters of `s` in `from..to` as a numeral. Values of 100 or
/// more are reported as 100, which is enough to test any bound of a clock.
pub fn read_numeral(s: &str, from: usize, to: usize) -> (r: Option<u32>)
    requires
        from <= to <= s@.len(),
    ensures
        r == (if is_numeral(s@.subrange(from as int, to as int)) {
            Some(
                if numeral_value(s@.subrange(from as int, to as int)) < 100 {
                    numeral_value(s@.subrange(from as int, to as int)) as u32
                } else {
                    100u32
                },
            )
        } else {
            None::<u32>
        }),
{
    if from == to {
        return None;
    }
    let mut acc: u32 = 0;
    let mut j: usize = from;
    while j < to
        invariant
            from <= j <= to <= s@.len(),
            forall|i: int| 0 <= i < j - from ==> is_digit(#[trigger] s@.subrange(from as int, j as int)[i]),
            acc == (if numeral_value(s@.subrange(from as int, j as int)) < 100 {
                numeral_value(s@.subrange(from as int, j as int))
            } else {
                100
            }),
        decreases to - j,
    {
        let ch = s.get_char(j);
        let ghost prefix = s@.subrange(from as int, j as int);
        let ghost next = s@.subrange(from as int, j + 1);
        proof {
            assert(next.drop_last() =~= prefix);
        }
        if !('0' <= ch && ch <= '9') {
            proof {
                let sub = s@.subrange(from as int, to as int);
                assert(sub[j - from] == ch);
            }
            return None;
        }
        let d: u32 = ch as u32 - '0' as u32;
        let grown: u32 = acc * 10 + d;
        acc = if grown < 100 { grown } else { 100 };
        proof {
            assert forall|i: int| 0 <= i < j + 1 - from implies is_digit(#[trigger] next[i]) by {
                if i < j - from {
                    assert(next[i] == prefix[i]);
                }
            }
        }
        j = j + 1;
    }
    proof {
        let sub = s@.subrange(from as int, to as int);
        assert forall|i: int| 0 <= i < sub.len() implies is_digit(#[trigger] sub[i]) by {
            assert(sub[i] == s@.subrange(from as int, j as int)[i]);
        }
    }
    Some(acc)
}

} // verus!
