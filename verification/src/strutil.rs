//! String groundwork for the router: splitting a path on `/`, joining
//! segments back, decimal parsing and formatting, and lookup in an
//! association list of string pairs.

use vstd::prelude::*;

verus! {

/// Index of the first `/` in `s`, or `-1` if there is none.
pub open spec fn first_slash(s: Seq<char>) -> int
    decreases s.len(),
{
    if s.len() == 0 {
        -1
    } else if s[0] == '/' {
        0
    } else {
        let r = first_slash(s.drop_first());
        if r < 0 {
            -1
        } else {
            r + 1
        }
    }
}

proof fn lemma_first_slash(s: Seq<char>)
    ensures
        first_slash(s) == -1 || (0 <= first_slash(s) < s.len()),
        first_slash(s) >= 0 ==> s[first_slash(s)] == '/',
        forall|j: int| 0 <= j < s.len() && (first_slash(s) == -1 || j < first_slash(s)) ==> s[j]
            != '/',
    decreases s.len(),
{
    if s.len() == 0 {
    } else if s[0] == '/' {
    } else {
        lemma_first_slash(s.drop_first());
        assert forall|j: int|
            0 <= j < s.len() && (first_slash(s) == -1 || j < first_slash(s)) implies s[j]
            != '/' by {
            if j > 0 {
                assert(s.drop_first()[j - 1] == s[j]);
            }
        }
    }
}

proof fn lemma_first_slash_at(s: Seq<char>, k: int)
    requires
        0 <= k < s.len(),
        s[k] == '/',
        forall|j: int| 0 <= j < k ==> s[j] != '/',
    ensures
        first_slash(s) == k,
    decreases s.len(),
{
    if k > 0 {
        assert forall|j: int| 0 <= j < k - 1 implies s.drop_first()[j] != '/' by {
            assert(s.drop_first()[j] == s[j + 1]);
        }
        assert(s.drop_first()[k - 1] == s[k]);
        lemma_first_slash_at(s.drop_first(), k - 1);
    }
}

proof fn lemma_first_slash_none(s: Seq<char>)
    requires
        forall|j: int| 0 <= j < s.len() ==> s[j] != '/',
    ensures
        first_slash(s) == -1,
    decreases s.len(),
{
    if s.len() > 0 {
        assert forall|j: int| 0 <= j < s.drop_first().len() implies s.drop_first()[j] != '/' by {
            assert(s.drop_first()[j] == s[j + 1]);
        }
        lemma_first_slash_none(s.drop_first());
    }
}

/// Split a character sequence at every `/`. The result always has at least
/// one element; no element contains a `/`; joining the result with `/`
/// gives the input back.
pub open spec fn split_slash(s: Seq<char>) -> Seq<Seq<char>>
    decreases s.len(),
    via split_slash_decreases
{
    let k = first_slash(s);
    if k < 0 {
        seq![s]
    } else {
        seq![s.take(k)] + split_slash(s.skip(k + 1))
    }
}

#[via_fn]
proof fn split_slash_decreases(s: Seq<char>) {
    lemma_first_slash(s);
}

/// Join character sequences with `/` between them; the inverse of
/// `split_slash` on slash-free segments.
pub open spec fn join_slash(ss: Seq<Seq<char>>) -> Seq<char>
    decreases ss.len(),
{
    if ss.len() == 0 {
        Seq::empty()
    } else if ss.len() == 1 {
        ss[0]
    } else {
        ss[0] + seq!['/'] + join_slash(ss.drop_first())
    }
}

/// Splitting is the canonical decomposition: the pieces are slash-free
/// and joining them with `/` yields the original sequence back.
pub proof fn lemma_split_join(s: Seq<char>)
    ensures
        split_slash(s).len() >= 1,
        join_slash(split_slash(s)) =~= s,
        forall|i: int, j: int|
            0 <= i < split_slash(s).len() && 0 <= j < split_slash(s)[i].len() ==> split_slash(
                s,
            )[i][j] != '/',
    decreases s.len(),
{
    lemma_split_no_slash(s);
    lemma_first_slash(s);
    let k = first_slash(s);
    if k >= 0 {
        lemma_split_join(s.skip(k + 1));
        let parts = seq![s.take(k)] + split_slash(s.skip(k + 1));
        assert(parts.drop_first() =~= split_slash(s.skip(k + 1)));
        assert(join_slash(split_slash(s)) =~= s.take(k) + seq!['/'] + s.skip(k + 1));
    }
}

proof fn lemma_split_no_slash(s: Seq<char>)
    ensures
        forall|i: int, j: int|
            0 <= i < split_slash(s).len() && 0 <= j < split_slash(s)[i].len() ==> split_slash(
                s,
            )[i][j] != '/',
    decreases s.len(),
{
    lemma_first_slash(s);
    let k = first_slash(s);
    if k >= 0 {
        lemma_split_no_slash(s.skip(k + 1));
        assert forall|i: int, j: int|
            0 <= i < split_slash(s).len() && 0 <= j < split_slash(s)[i].len() implies split_slash(
            s,
        )[i][j] != '/' by {
            if i == 0 {
                assert(split_slash(s)[0] == s.take(k));
            } else {
                assert(split_slash(s)[i] == split_slash(s.skip(k + 1))[i - 1]);
            }
        }
    }
}

/// Exec search for the first `/` in a string.
pub fn find_slash(s: &str) -> (r: Option<usize>)
    ensures
        match r {
            Some(i) => first_slash(s@) == i as int,
            None => first_slash(s@) == -1,
        },
{
    let n = s.unicode_len();
    let mut i: usize = 0;
    while i < n
        invariant
            n == s@.len(),
            0 <= i <= n,
            forall|j: int| 0 <= j < i ==> s@[j] != '/',
        decreases n - i,
    {
        let c = s.get_char(i);
        if c == '/' {
            proof {
                lemma_first_slash_at(s@, i as int);
            }
            return Some(i);
        }
        i = i + 1;
    }
    proof {
        lemma_first_slash_none(s@);
    }
    None
}

/// Exec split of a path string on `/`, mirroring `split_slash`.
pub fn split_path(s: &str) -> (r: Vec<String>)
    ensures
        r.deep_view() =~= split_slash(s@),
    decreases s@.len(),
{
    proof {
        lemma_first_slash(s@);
    }
    match find_slash(s) {
        None => {
            let mut v: Vec<String> = Vec::new();
            v.push(s.to_owned());
            proof {
                assert(v.deep_view() =~= seq![s@]);
            }
            v
        },
        Some(k) => {
            let n = s.unicode_len();
            let head = s.substring_char(0, k);
            let tail = s.substring_char(k + 1, n);
            let mut rest = split_path(tail);
            rest.insert(0, head.to_owned());
            proof {
                assert(head@ =~= s@.take(k as int));
                assert(tail@ =~= s@.skip(k + 1));
                assert(rest.deep_view() =~= seq![s@.take(k as int)] + split_slash(s@.skip(k + 1)));
            }
            rest
        },
    }
}

/// Exec join of segments with `/`, mirroring `join_slash`.
pub fn join_segments(segs: &Vec<String>, from: usize) -> (r: String)
    requires
        from <= segs.len(),
    ensures
        r@ =~= join_slash(segs.deep_view().skip(from as int)),
    decreases segs.len() - from,
{
    if from == segs.len() {
        proof {
            assert(segs.deep_view().skip(from as int) =~= Seq::<Seq<char>>::empty());
        }
        String::new()
    } else if from + 1 == segs.len() {
        segs[from].clone()
    } else {
        let rest = join_segments(segs, from + 1);
        let mut out = segs[from].clone();
        out.append("/");
        let out2 = out.concat(rest.as_str());
        proof {
            reveal_strlit("/");
            let ss = segs.deep_view().skip(from as int);
            assert(ss.drop_first() =~= segs.deep_view().skip(from as int + 1));
            assert(out2@ =~= ss[0] + seq!['/'] + join_slash(ss.drop_first()));
        }
        out2
    }
}

/// Whether two strings hold the same characters.
pub fn str_eq(a: &str, b: &str) -> (r: bool)
    ensures
        r == (a@ == b@),
{
    let sa = a.to_owned();
    let sb = b.to_owned();
    sa == sb
}

/// First value bound to `key` in an association list, front to back.
pub open spec fn alist_get(m: Seq<(Seq<char>, Seq<char>)>, key: Seq<char>) -> Option<Seq<char>>
    decreases m.len(),
{
    if m.len() == 0 {
        None
    } else if m[0].0 == key {
        Some(m[0].1)
    } else {
        alist_get(m.drop_first(), key)
    }
}

/// View of an association list of strings as a sequence of pairs of
/// character sequences.
pub open spec fn alist_view(v: Seq<(String, String)>) -> Seq<(Seq<char>, Seq<char>)> {
    Seq::new(v.len(), |i: int| (v[i].0@, v[i].1@))
}

fn alist_lookup_from(v: &Vec<(String, String)>, key: &str, i: usize) -> (r: Option<String>)
    requires
        i <= v.len(),
    ensures
        match r {
            Some(val) => alist_get(alist_view(v@).skip(i as int), key@) == Some(val@),
            None => alist_get(alist_view(v@).skip(i as int), key@) is None,
        },
    decreases v.len() - i,
{
    proof {
        if i < v.len() {
            assert(alist_view(v@).skip(i as int).drop_first() =~= alist_view(v@).skip(
                i as int + 1,
            ));
        }
    }
    if i == v.len() {
        proof {
            assert(alist_view(v@).skip(i as int) =~= Seq::<(Seq<char>, Seq<char>)>::empty());
        }
        None
    } else if str_eq(v[i].0.as_str(), key) {
        Some(v[i].1.clone())
    } else {
        alist_lookup_from(v, key, i + 1)
    }
}

/// Exec lookup in an association list, mirroring `alist_get`.
pub fn alist_lookup(v: &Vec<(String, String)>, key: &str) -> (r: Option<String>)
    ensures
        match r {
            Some(val) => alist_get(alist_view(v@), key@) == Some(val@),
            None => alist_get(alist_view(v@), key@) is None,
        },
{
    proof {
        assert(alist_view(v@).skip(0) =~= alist_view(v@));
    }
    alist_lookup_from(v, key, 0)
}

/// Whether `c` is a decimal digit.
pub open spec fn is_digit(c: char) -> bool {
    '0' <= c && c <= '9'
}

/// Numeric value of a digit character.
pub open spec fn digit_val(c: char) -> int {
    c as int - '0' as int
}

/// Whether every character of `s` is a decimal digit and `s` is nonempty.
pub open spec fn all_digits(s: Seq<char>) -> bool {
    s.len() > 0 && forall|i: int| 0 <= i < s.len() ==> is_digit(#[trigger] s[i])
}

/// Value of a decimal digit string, most significant digit first.
pub open spec fn dec_value(s: Seq<char>) -> int
    decreases s.len(),
{
    if s.len() == 0 {
        0
    } else {
        dec_value(s.drop_last()) * 10 + digit_val(s.last())
    }
}

/// A string denotes a `u32` when it is all digits and its value fits.
pub open spec fn is_u32_string(s: Seq<char>) -> bool {
    all_digits(s) && dec_value(s) <= u32::MAX as int
}

proof fn lemma_dec_value_nonneg(s: Seq<char>)
    requires
        forall|i: int| 0 <= i < s.len() ==> is_digit(#[trigger] s[i]),
    ensures
        dec_value(s) >= 0,
    decreases s.len(),
{
    if s.len() > 0 {
        lemma_dec_value_nonneg(s.drop_last());
    }
}

proof fn lemma_dec_value_extend(s: Seq<char>, i: int)
    requires
        0 <= i < s.len(),
    ensures
        dec_value(s.take(i + 1)) == dec_value(s.take(i)) * 10 + digit_val(s[i]),
{
    assert(s.take(i + 1).drop_last() =~= s.take(i));
    assert(s.take(i + 1).last() == s[i]);
}

proof fn lemma_dec_value_prefix(s: Seq<char>, i: int)
    requires
        0 <= i <= s.len(),
        forall|j: int| 0 <= j < s.len() ==> is_digit(#[trigger] s[j]),
    ensures
        dec_value(s) >= dec_value(s.take(i)),
    decreases s.len() - i,
{
    if i == s.len() {
        assert(s.take(i) =~= s);
    } else {
        lemma_dec_value_extend(s, i);
        lemma_dec_value_nonneg(s.take(i));
        lemma_dec_value_prefix(s, i + 1);
    }
}

/// Exec decimal parse of a `u32`, accepting exactly the nonempty all-digit
/// strings whose value fits; mirrors `dec_value`.
pub fn parse_u32(s: &str) -> (r: Option<u32>)
    ensures
        match r {
            Some(v) => is_u32_string(s@) && v as int == dec_value(s@),
            None => !is_u32_string(s@),
        },
{
    let n = s.unicode_len();
    if n == 0 {
        return None;
    }
    let mut acc: u64 = 0;
    let mut i: usize = 0;
    while i < n
        invariant
            n == s@.len(),
            0 < n,
            0 <= i <= n,
            forall|j: int| 0 <= j < i ==> is_digit(#[trigger] s@[j]),
            acc as int == dec_value(s@.take(i as int)),
            acc <= u32::MAX,
        decreases n - i,
    {
        let c = s.get_char(i);
        if c < '0' || c > '9' {
            return None;
        }
        let d: u64 = (c as u32 as u64) - 48;
        proof {
            lemma_dec_value_extend(s@, i as int);
        }
        let next: u64 = acc * 10 + d;
        if next > 0xFFFF_FFFF {
            proof {
                if all_digits(s@) {
                    lemma_dec_value_prefix(s@, i as int + 1);
                }
            }
            return None;
        }
        acc = next;
        i = i + 1;
    }
    proof {
        assert(s@.take(n as int) =~= s@);
    }
    Some(acc as u32)
}

/// Digit character for a value below ten.
pub open spec fn digit_char(d: int) -> char {
    if d == 0 {
        '0'
    } else if d == 1 {
        '1'
    } else if d == 2 {
        '2'
    } else if d == 3 {
        '3'
    } else if d == 4 {
        '4'
    } else if d == 5 {
        '5'
    } else if d == 6 {
        '6'
    } else if d == 7 {
        '7'
    } else if d == 8 {
        '8'
    } else {
        '9'
    }
}

/// Decimal digit string of `n`, most significant digit first.
pub open spec fn dec_digits(n: int) -> Seq<char>
    decreases n,
{
    if n < 10 {
        seq![digit_char(n)]
    } else {
        dec_digits(n / 10) + seq![digit_char(n % 10)]
    }
}

fn digit_str(d: u32) -> (r: &'static str)
    requires
        d < 10,
    ensures
        r@ =~= seq![digit_char(d as int)],
{
    proof {
        reveal_strlit("0");
        reveal_strlit("1");
        reveal_strlit("2");
        reveal_strlit("3");
        reveal_strlit("4");
        reveal_strlit("5");
        reveal_strlit("6");
        reveal_strlit("7");
        reveal_strlit("8");
        reveal_strlit("9");
    }
    if d == 0 {
        "0"
    } else if d == 1 {
        "1"
    } else if d == 2 {
        "2"
    } else if d == 3 {
        "3"
    } else if d == 4 {
        "4"
    } else if d == 5 {
        "5"
    } else if d == 6 {
        "6"
    } else if d == 7 {
        "7"
    } else if d == 8 {
        "8"
    } else {
        "9"
    }
}

/// Exec decimal formatting of a `u32`, mirroring `dec_digits`.
pub fn u32_to_string(n: u32) -> (r: String)
    ensures
        r@ =~= dec_digits(n as int),
    decreases n,
{
    if n < 10 {
        digit_str(n).to_owned()
    } else {
        let high = u32_to_string(n / 10);
        high.concat(digit_str(n % 10))
    }
}

} // verus!
