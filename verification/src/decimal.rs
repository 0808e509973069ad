//! Decimal text: rendering numbers for the uid/gid map and cgroup `tasks`
//! files, and reading the pid lists that the kernel writes to
//! `cgroup.procs`.

use vstd::prelude::*;

verus! {

/// The character for a single decimal digit.
pub open spec fn digit_char(d: int) -> char
    recommends
        0 <= d < 10,
{
    if d == 0 {
        '0'
    } else if d == 1 {
        '1'
    } else if d == 2 {
        '2'
    } else if d == 3 {
        '3'
    } else if d == 4 {
        '4'
    } else if d == 5 {
        '5'
    } else if d == 6 {
        '6'
    } else if d == 7 {
        '7'
    } else if d == 8 {
        '8'
    } else {
        '9'
    }
}

/// The shortest decimal rendering of a non-negative number.
pub open spec fn spec_decimal(n: int) -> Seq<char>
    recommends
        n >= 0,
    decreases n,
{
    if n < 10 {
        seq![digit_char(n)]
    } else {
        spec_decimal(n / 10).push(digit_char(n % 10))
    }
}

/// Whether `c` is a decimal digit.
pub open spec fn is_digit(c: char) -> bool {
    '0' <= c <= '9'
}

/// The numeric value of a digit character.
pub open spec fn digit_value(c: char) -> int
    recommends
        is_digit(c),
{
    c as int - '0' as int
}

/// Whether `s` is one or more decimal digits.
pub open spec fn all_digits(s: Seq<char>) -> bool {
    s.len() > 0 && forall|i: int| 0 <= i < s.len() ==> is_digit(#[trigger] s[i])
}

/// The number that a digit string denotes.
pub open spec fn digits_value(s: Seq<char>) -> int
    decreases s.len(),
{
    if s.len() == 0 {
        0
    } else {
        digits_value(s.drop_last()) * 10 + digit_value(s.last())
    }
}

fn digit_str(d: u32) -> (s: &'static str)
    requires
        d < 10,
    ensures
        s@ == seq![digit_char(d as int)],
{
    proof {
        reveal_strlit("0");
        reveal_strlit("1");
        reveal_strlit("2");
        reveal_strlit("3");
        reveal_strlit("4");
        reveal_strlit("5");
        reveal_strlit("6");
        reveal_strlit("7");
        reveal_strlit("8");
        reveal_strlit("9");
    }
    let s: &'static str = match d {
        0 => "0",
        1 => "1",
        2 => "2",
        3 => "3",
        4 => "4",
        5 => "5",
        6 => "6",
        7 => "7",
        8 => "8",
        _ => "9",
    };
    proof {
        assert(s@ =~= seq![digit_char(d as int)]);
    }
    s
}

/// The position of the first line break, or the length when there is none.
pub open spec fn first_newline(s: Seq<char>) -> int
    decreases s.len(),
{
    if s.len() == 0 {
        0
    } else if s[0] == '\n' {
        0
    } else {
        1 + first_newline(s.drop_first())
    }
}

proof fn lemma_first_newline_bounds(s: Seq<char>)
    ensures
        0 <= first_newline(s) <= s.len(),
    decreases s.len(),
{
    if s.len() == 0 {
    } else if s[0] == '\n' {
    } else {
        lemma_first_newline_bounds(s.drop_first());
    }
}

proof fn lemma_first_newline_at(s: Seq<char>, k: int)
    requires
        0 <= k <= s.len(),
        forall|j: int| 0 <= j < k ==> s[j] != '\n',
        k < s.len() ==> s[k] == '\n',
    ensures
        first_newline(s) == k,
    decreases k,
{
    if k == 0 {
    } else {
        lemma_first_newline_at(s.drop_first(), k - 1);
    }
}

/// The numbers written on the lines of `s`, one per line, when every line
/// is a digit string whose value fits an `i32`; nothing otherwise.
pub open spec fn spec_parse_pids(s: Seq<char>) -> Option<Seq<i32>>
    decreases s.len(),
    via spec_parse_pids_decreases
{
    if s.len() == 0 {
        Some(Seq::empty())
    } else {
        let k = first_newline(s);
        let line = s.take(k);
        if !all_digits(line) || digits_value(line) > i32::MAX {
            None
        } else {
            let rest = if k == s.len() {
                Seq::empty()
            } else {
                s.skip(k + 1)
            };
            match spec_parse_pids(rest) {
                None => None,
                Some(vs) => Some(seq![digits_value(line) as i32] + vs),
            }
        }
    }
}

#[via_fn]
proof fn spec_parse_pids_decreases(s: Seq<char>) {
    lemma_first_newline_bounds(s);
}

/// Reads a newline-separated list of numbers, as the kernel writes pid
/// lists.  Every line must be plain digits and fit an `i32`.
pub fn parse_pids(content: &str) -> (r: Option<Vec<i32>>)
    ensures
        match r {
            Some(v) => spec_parse_pids(content@) == Some(v@),
            None => spec_parse_pids(content@) is None,
        },
    decreases content@.len(),
{
    let n = content.unicode_len();
    if n == 0 {
        let v: Vec<i32> = Vec::new();
        proof {
            assert(v@ =~= Seq::<i32>::empty());
        }
        return Some(v);
    }
    let mut k: usize = 0;
    while k < n && content.get_char(k) != '\n'
        invariant
            0 <= k <= n == content@.len(),
            forall|j: int| 0 <= j < k ==> content@[j] != '\n',
        decreases n - k,
    {
        k = k + 1;
    }
    proof {
        lemma_first_newline_at(content@, k as int);
    }
    let ghost line = content@.take(k as int);
    if k == 0 {
        proof {
            assert(!all_digits(line));
        }
        return None;
    }
    let mut val: u64 = 0;
    let mut big: bool = false;
    let mut i: usize = 0;
    while i < k
        invariant
            0 <= i <= k,
            k as int <= content@.len(),
            content@.len() > 0,
            first_newline(content@) == k as int,
            forall|j: int| 0 <= j < i ==> is_digit(#[trigger] content@[j]),
            !big ==> val == digits_value(content@.take(i as int)) && val <= i32::MAX,
            big ==> digits_value(content@.take(i as int)) > i32::MAX,
        decreases k - i,
    {
        let c = content.get_char(i);
        let u = c as u32;
        if u < 48 || u > 57 {
            proof {
                assert(!is_digit(content@[i as int]));
                assert(content@.take(k as int)[i as int] == content@[i as int]);
                assert(!all_digits(content@.take(k as int)));
            }
            return None;
        }
        let d = (u - 48) as u64;
        proof {
            assert(content@.take(i + 1).drop_last() =~= content@.take(i as int));
            assert(content@.take(i + 1).last() == content@[i as int]);
            assert(digit_value(content@[i as int]) == d);
        }
        if big {
            i = i + 1;
        } else {
            let next = val * 10 + d;
            if next > 0x7fff_ffff {
                big = true;
            } else {
                val = next;
            }
            i = i + 1;
        }
    }
    proof {
        assert(content@.take(k as int) == line);
        assert(all_digits(line));
    }
    if big {
        return None;
    }
    let pid = val as i32;
    if k == n {
        let mut v: Vec<i32> = Vec::new();
        v.push(pid);
        proof {
            assert(all_digits(line));
            assert(digits_value(line) == val as int);
            assert(digits_value(line) <= i32::MAX);
            assert(k as int == content@.len());
            assert(first_newline(content@) == k as int);
            assert(spec_parse_pids(Seq::<char>::empty()) == Some(Seq::<i32>::empty()));
            assert(v@ =~= seq![digits_value(line) as i32] + Seq::<i32>::empty());
            assert(spec_parse_pids(content@) == Some(v@));
        }
        Some(v)
    } else {
        let rest = content.substring_char(k + 1, n);
        proof {
            assert(rest@ =~= content@.skip(k + 1));
        }
        match parse_pids(rest) {
            None => None,
            Some(mut v) => {
                let ghost tail = v@;
                v.insert(0, pid);
                proof {
                    assert(v@ =~= seq![digits_value(line) as i32] + tail);
                    assert(spec_parse_pids(content@) == Some(v@));
                }
                Some(v)
            },
        }
    }
}

/// Renders `n` in decimal, with no sign and no leading zero.
pub fn u32_decimal(n: u32) -> (s: String)
    ensures
        s@ == spec_decimal(n as int),
    decreases n,
{
    if n < 10 {
        String::from_str(digit_str(n))
    } else {
        let mut s = u32_decimal(n / 10);
        s.append(digit_str(n % 10));
        proof {
            assert(s@ =~= spec_decimal(n as int));
        }
        s
    }
}

} // verus!
