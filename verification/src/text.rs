//! Verified helpers on character sequences: suffix tests, file extensions,
//! zero-padded decimal rendering and lexicographic order.

use vstd::prelude::*;
use vstd::string::*;

verus! {

/// `suffix` is the tail of `s`.
pub open spec fn spec_ends_with(s: Seq<char>, suffix: Seq<char>) -> bool {
    suffix.len() <= s.len() && s.subrange(s.len() - suffix.len(), s.len() as int) == suffix
}

/// Number of characters after the last `.` of `s`; all of them when `s` has no `.`.
pub open spec fn spec_tail_len(s: Seq<char>) -> nat
    decreases s.len(),
{
    if s.len() == 0 || s.last() == '.' {
        0
    } else {
        spec_tail_len(s.drop_last()) + 1
    }
}

/// What follows the last `.` of `path`; the whole of `path` when it has no `.`.
pub open spec fn spec_extension(path: Seq<char>) -> Seq<char> {
    path.subrange(path.len() - spec_tail_len(path), path.len() as int)
}

/// The character that writes the decimal digit `d`.
pub open spec fn spec_digit(d: int) -> char {
    if d == 0 {
        '0'
    } else if d == 1 {
        '1'
    } else if d == 2 {
        '2'
    } else if d == 3 {
        '3'
    } else if d == 4 {
        '4'
    } else if d == 5 {
        '5'
    } else if d == 6 {
        '6'
    } else if d == 7 {
        '7'
    } else if d == 8 {
        '8'
    } else {
        '9'
    }
}

/// Decimal notation of `n`, without leading zeros.
pub open spec fn spec_decimal(n: nat) -> Seq<char>
    decreases n,
{
    if n < 10 {
        seq![spec_digit(n as int)]
    } else {
        spec_decimal(n / 10).push(spec_digit((n % 10) as int))
    }
}

/// `k` zeros; none when `k` is not positive.
pub open spec fn spec_zeros(k: int) -> Seq<char> {
    Seq::new(
        if k > 0 {
            k as nat
        } else {
            0
        },
        |i: int| '0',
    )
}

/// Decimal notation of `n`, filled with zeros up to `width` characters. A minus
/// sign comes first and counts towards the width.
pub open spec fn spec_zero_padded(n: int, width: nat) -> Seq<char> {
    if n >= 0 {
        spec_zeros(width - spec_decimal(n as nat).len()) + spec_decimal(n as nat)
    } else {
        seq!['-'] + spec_zeros(width - 1 - spec_decimal((-n) as nat).len()) + spec_decimal(
            (-n) as nat,
        )
    }
}

/// Strict lexicographic order by code point: a proper prefix comes first.
pub open spec fn spec_lex_lt(a: Seq<char>, b: Seq<char>) -> bool
    decreases a.len(),
{
    if b.len() == 0 {
        false
    } else if a.len() == 0 {
        true
    } else if a[0] != b[0] {
        (a[0] as int) < (b[0] as int)
    } else {
        spec_lex_lt(a.drop_first(), b.drop_first())
    }
}

/// Contents of an optional string.
pub open spec fn opt_text(s: Option<String>) -> Option<Seq<char>> {
    match s {
        Some(t) => Some(t@),
        None => None,
    }
}

/// The extension has no `.`, ends the path, and either is the whole path or
/// follows a `.` directly.
pub proof fn law_extension_follows_last_dot(path: Seq<char>)
    ensures
        spec_tail_len(path) <= path.len(),
        !spec_extension(path).contains('.'),
        spec_ends_with(path, spec_extension(path)),
        spec_extension(path).len() == path.len() || path[path.len() - spec_extension(
            path,
        ).len() - 1] == '.',
    decreases path.len(),
{
    if path.len() == 0 || path.last() == '.' {
        assert(spec_extension(path) =~= Seq::<char>::empty());
    } else {
        let front = path.drop_last();
        law_extension_follows_last_dot(front);
        let n = spec_tail_len(front);
        assert(spec_extension(path) =~= spec_extension(front).push(path.last()));
        assert forall|i: int| 0 <= i < spec_extension(path).len() implies spec_extension(path)[i]
            != '.' by {
            if i < n {
                assert(spec_extension(front)[i] == spec_extension(path)[i]);
                assert(spec_extension(front).contains(spec_extension(front)[i]));
            }
        }
    }
}

/// The characters of a string slice, in order.
pub fn chars_of(s: &str) -> (v: Vec<char>)
    ensures
        v@ == s@,
{
    let mut v: Vec<char> = Vec::new();
    for c in it: s.chars()
        invariant
            v@ == it.seq().take(it.index()),
    {
        v.push(c);
    }
    v
}

/// Tells whether `s` ends with `suffix`.
pub fn ends_with(s: &str, suffix: &str) -> (r: bool)
    ensures
        r == spec_ends_with(s@, suffix@),
{
    let text = chars_of(s);
    let tail = chars_of(suffix);
    if tail.len() > text.len() {
        return false;
    }
    let start: usize = text.len() - tail.len();
    let mut i: usize = 0;
    while i < tail.len()
        invariant
            text@ == s@,
            tail@ == suffix@,
            start + tail.len() == text.len(),
            i <= tail.len(),
            forall|k: int| 0 <= k < i ==> text@[start + k] == tail@[k],
        decreases tail.len() - i,
    {
        if text[start + i] != tail[i] {
            assert(text@.subrange(start as int, text@.len() as int)[i as int] != tail@[i as int]);
            return false;
        }
        i += 1;
    }
    assert(text@.subrange(start as int, text@.len() as int) =~= tail@);
    true
}

/// Tells whether two string slices hold the same characters.
pub fn same_text(a: &str, b: &str) -> (r: bool)
    ensures
        r == (a@ == b@),
{
    let x = chars_of(a);
    let y = chars_of(b);
    if x.len() != y.len() {
        return false;
    }
    let mut i: usize = 0;
    while i < x.len()
        invariant
            x@ == a@,
            y@ == b@,
            x.len() == y.len(),
            i <= x.len(),
            forall|k: int| 0 <= k < i ==> x@[k] == y@[k],
        decreases x.len() - i,
    {
        if x[i] != y[i] {
            return false;
        }
        i += 1;
    }
    assert(x@ =~= y@);
    true
}

/// Tells whether two optional strings are both absent or hold the same characters.
pub fn same_opt_text(a: &Option<String>, b: &Option<String>) -> (r: bool)
    ensures
        r == (opt_text(*a) == opt_text(*b)),
{
    match (a, b) {
        (None, None) => true,
        (Some(x), Some(y)) => same_text(x.as_str(), y.as_str()),
        _ => false,
    }
}

/// What follows the last `.` of `path`; the whole of `path` when it has no `.`.
pub fn extension_of(path: &str) -> (ext: String)
    ensures
        ext@ == spec_extension(path@),
{
    let chars = chars_of(path);
    let n: usize = chars.len();
    let mut i: usize = n;
    assert(chars@.take(n as int) =~= chars@);
    while i > 0 && chars[i - 1] != '.'
        invariant
            i <= n,
            n == chars@.len(),
            spec_tail_len(chars@) == spec_tail_len(chars@.take(i as int)) + (n - i),
        decreases i,
    {
        proof {
            let cur = chars@.take(i as int);
            assert(cur.last() == chars@[i - 1]);
            assert(cur.drop_last() =~= chars@.take(i - 1));
        }
        i -= 1;
    }
    proof {
        let cur = chars@.take(i as int);
        if i > 0 {
            assert(cur.last() == chars@[i - 1]);
        }
        assert(spec_tail_len(cur) == 0);
    }
    path.substring_char(i, n).to_owned()
}

/// The one-character string that writes the digit `d`.
fn digit_str(d: u64) -> (s: &'static str)
    requires
        d < 10,
    ensures
        s@ == seq![spec_digit(d as int)],
{
    proof {
        reveal_strlit("0");
        reveal_strlit("1");
        reveal_strlit("2");
        reveal_strlit("3");
        reveal_strlit("4");
        reveal_strlit("5");
        reveal_strlit("6");
        reveal_strlit("7");
        reveal_strlit("8");
        reveal_strlit("9");
    }
    let s = if d == 0 {
        "0"
    } else if d == 1 {
        "1"
    } else if d == 2 {
        "2"
    } else if d == 3 {
        "3"
    } else if d == 4 {
        "4"
    } else if d == 5 {
        "5"
    } else if d == 6 {
        "6"
    } else if d == 7 {
        "7"
    } else if d == 8 {
        "8"
    } else {
        "9"
    };
    assert(s@ =~= seq![spec_digit(d as int)]);
    s
}

/// Decimal notation of `n`, without leading zeros.
pub fn decimal(n: u64) -> (s: String)
    ensures
        s@ == spec_decimal(n as nat),
    decreases n,
{
    if n < 10 {
        digit_str(n).to_owned()
    } else {
        let mut s = decimal(n / 10);
        s.append(digit_str(n % 10));
        assert(s@ =~= spec_decimal((n / 10) as nat).push(spec_digit((n % 10) as int)));
        s
    }
}

/// Decimal notation of `n`, filled with zeros up to `width` characters, as the
/// `{:0width}` format writes a signed integer.
pub fn zero_padded(n: i32, width: usize) -> (s: String)
    ensures
        s@ == spec_zero_padded(n as int, width as nat),
{
    let negative = n < 0;
    let magnitude: u64 = if negative {
        (-(n as i64)) as u64
    } else {
        n as u64
    };
    let digits = decimal(magnitude);
    let used: usize = digits.as_str().unicode_len();
    let mut s = String::new();
    let mut room: usize = width;
    if negative {
        proof {
            reveal_strlit("-");
        }
        s.append("-");
        assert(s@ =~= seq!['-']);
        if room > 0 {
            room -= 1;
        }
    }
    let ghost head = s@;
    let fill: usize = if room > used {
        room - used
    } else {
        0
    };
    let mut k: usize = 0;
    while k < fill
        invariant
            k <= fill,
            s@ == head + spec_zeros(k as int),
        decreases fill - k,
    {
        proof {
            reveal_strlit("0");
        }
        s.append("0");
        k += 1;
        assert(s@ =~= head + spec_zeros(k as int));
    }
    s.append(digits.as_str());
    proof {
        if negative {
            assert(spec_zeros(fill as int) =~= spec_zeros(width - 1 - used));
        } else {
            assert(head =~= Seq::<char>::empty());
            assert(spec_zeros(fill as int) =~= spec_zeros(width - used));
        }
        assert(s@ =~= spec_zero_padded(n as int, width as nat));
    }
    s
}

/// Tells whether `a` comes strictly before `b` in lexicographic order.
pub fn lex_lt(a: &str, b: &str) -> (r: bool)
    ensures
        r == spec_lex_lt(a@, b@),
{
    let x = chars_of(a);
    let y = chars_of(b);
    let mut i: usize = 0;
    assert(x@.skip(0) =~= x@);
    assert(y@.skip(0) =~= y@);
    loop
        invariant
            x@ == a@,
            y@ == b@,
            i <= x.len(),
            i <= y.len(),
            spec_lex_lt(x@, y@) == spec_lex_lt(x@.skip(i as int), y@.skip(i as int)),
        decreases x.len() - i,
    {
        if i >= y.len() {
            return false;
        }
        if i >= x.len() {
            return true;
        }
        let p = x[i];
        let q = y[i];
        if p != q {
            return p < q;
        }
        proof {
            assert(x@.skip(i as int).drop_first() =~= x@.skip(i + 1));
            assert(y@.skip(i as int).drop_first() =~= y@.skip(i + 1));
        }
        i += 1;
    }
}

} // verus!
