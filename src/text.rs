//! Character-level helpers on names, paths and URLs.
use vstd::prelude::*;

verus! {

/// Whether two strings hold the same characters.
pub fn str_eq(a: &str, b: &str) -> (r: bool)
    ensures
        r == (a@ == b@),
{
    let n = a.unicode_len();
    let m = b.unicode_len();
    if n != m {
        return false;
    }
    let mut i: usize = 0;
    while i < n
        invariant
            n == a@.len(),
            m == b@.len(),
            n == m,
            i <= n,
            forall|k: int| 0 <= k < i ==> a@[k] == b@[k],
        decreases n - i,
    {
        if a.get_char(i) != b.get_char(i) {
            return false;
        }
        i += 1;
    }
    assert(a@ =~= b@);
    true
}


/// A path separator: `/`, and also `\` where `backslash` is set.
pub open spec fn is_sep(c: char, backslash: bool) -> bool {
    c == '/' || (backslash && c == '\\')
}

/// Start of the last segment of `p[0..m]`: just past its last separator, or 0.
pub open spec fn segment_start(p: Seq<char>, m: int, backslash: bool) -> int
    decreases m,
{
    if m <= 0 {
        0
    } else if is_sep(p[m - 1], backslash) {
        m
    } else {
        segment_start(p, m - 1, backslash)
    }
}

/// The last segment of a path: what follows its last separator.
pub open spec fn last_segment(p: Seq<char>, backslash: bool) -> Seq<char> {
    p.subrange(segment_start(p, p.len() as int, backslash), p.len() as int)
}

/// The file name of a path, taking both `/` and `\` as separators.
pub open spec fn base_name_spec(p: Seq<char>) -> Seq<char> {
    last_segment(p, true)
}

/// `c` equals the lower-case ASCII letter or other character `l`, ignoring ASCII case.
pub open spec fn ci_eq(c: char, l: char) -> bool {
    c == l || ('a' <= l && l <= 'z' && (c as u32) + 32 == (l as u32))
}

/// The file name `name` has the extension `ext` (lower case, no dot),
/// ignoring ASCII case: it ends in `.ext`, and that dot is not its first
/// character (`.zip` alone is a hidden file without an extension).
pub open spec fn has_extension(name: Seq<char>, ext: Seq<char>) -> bool {
    let n = name.len() as int;
    let e = ext.len() as int;
    &&& n >= e + 2
    &&& name[n - e - 1] == '.'
    &&& forall|k: int| 0 <= k < e ==> ci_eq(#[trigger] name[n - e + k], ext[k])
}

/// Whether a file name is an executable's: extension `exe`, any ASCII case.
pub open spec fn is_executable_spec(name: Seq<char>) -> bool {
    has_extension(name, seq!['e', 'x', 'e'])
}

fn char_ci_eq(c: char, l: char) -> (r: bool)
    ensures
        r == ci_eq(c, l),
{
    c == l || ('a' <= l && l <= 'z' && (c as u32) + 32 == (l as u32))
}

fn ends_with_extension(p: &str, ext: &str) -> (r: bool)
    ensures
        r == has_extension(p@, ext@),
{
    let n = p.unicode_len();
    let e = ext.unicode_len();
    if n < 2 || n - 2 < e {
        return false;
    }
    if p.get_char(n - e - 1) != '.' {
        return false;
    }
    let mut k: usize = 0;
    while k < e
        invariant
            n == p@.len(),
            e == ext@.len(),
            n >= e + 2,
            k <= e,
            forall|m: int| 0 <= m < k ==> ci_eq(#[trigger] p@[n - e + m], ext@[m]),
        decreases e - k,
    {
        if !char_ci_eq(p.get_char(n - e + k), ext.get_char(k)) {
            return false;
        }
        k += 1;
    }
    true
}

/// Whether a file name has the extension `zip`, any ASCII case. It takes
/// the bare file name (a path's last component), not a path.
pub fn has_zip_ext(name: &str) -> (r: bool)
    ensures
        r == has_extension(name@, seq!['z', 'i', 'p']),
{
    proof {
        reveal_strlit("zip");
    }
    assert("zip"@ =~= seq!['z', 'i', 'p']);
    ends_with_extension(name, "zip")
}

/// Whether a file name has the extension `msi`, any ASCII case. It takes
/// the bare file name (a path's last component), not a path.
pub fn has_msi_ext(name: &str) -> (r: bool)
    ensures
        r == has_extension(name@, seq!['m', 's', 'i']),
{
    proof {
        reveal_strlit("msi");
    }
    assert("msi"@ =~= seq!['m', 's', 'i']);
    ends_with_extension(name, "msi")
}

/// Whether a file name is an executable's: extension `exe`, any ASCII case.
/// It takes the bare file name, not a path.
///
/// Only the `exe` suffix qualifies, on every host. On hosts whose
/// executables carry no suffix nothing qualifies, so extraction places no
/// file there; the rule is kept as it stands rather than guessing
/// executables from their content or permission bits.
pub fn is_executable_name(name: &str) -> (r: bool)
    ensures
        r == is_executable_spec(name@),
{
    proof {
        reveal_strlit("exe");
    }
    assert("exe"@ =~= seq!['e', 'x', 'e']);
    ends_with_extension(name, "exe")
}

fn last_segment_start(p: &str, backslash: bool) -> (r: usize)
    ensures
        r as int == segment_start(p@, p@.len() as int, backslash),
        r <= p@.len(),
{
    let n = p.unicode_len();
    let mut m: usize = n;
    while m > 0
        invariant
            n == p@.len(),
            m <= n,
            segment_start(p@, n as int, backslash) == segment_start(p@, m as int, backslash),
        decreases m,
    {
        let c = p.get_char(m - 1);
        if c == '/' || (backslash && c == '\\') {
            return m;
        }
        m -= 1;
    }
    0
}

/// The file name of a path: what follows its last `/` or `\`.
pub fn base_name(p: &str) -> (r: String)
    ensures
        r@ == base_name_spec(p@),
{
    let k = last_segment_start(p, true);
    let n = p.unicode_len();
    String::from_str(p.substring_char(k, n))
}

/// The file name a download gets: the URL's last `/`-separated segment, or
/// `None` where that segment is empty.
pub fn file_name_from_url(url: &str) -> (r: Option<String>)
    ensures
        match r {
            Some(s) => s@ == last_segment(url@, false) && s@.len() > 0,
            None => last_segment(url@, false).len() == 0,
        },
{
    let k = last_segment_start(url, false);
    let n = url.unicode_len();
    if k == n {
        None
    } else {
        Some(String::from_str(url.substring_char(k, n)))
    }
}

/// Decimal digit `d` as a character.
pub open spec fn digit(d: nat) -> char {
    if d == 0 {
        '0'
    } else if d == 1 {
        '1'
    } else if d == 2 {
        '2'
    } else if d == 3 {
        '3'
    } else if d == 4 {
        '4'
    } else if d == 5 {
        '5'
    } else if d == 6 {
        '6'
    } else if d == 7 {
        '7'
    } else if d == 8 {
        '8'
    } else {
        '9'
    }
}

/// Decimal notation of `n`, without leading zeros.
pub open spec fn decimal(n: nat) -> Seq<char>
    decreases n,
{
    if n < 10 {
        seq![digit(n)]
    } else {
        decimal(n / 10).push(digit(n % 10))
    }
}

pub proof fn lemma_decimal_nonempty(n: nat)
    ensures
        decimal(n).len() >= 1,
        n >= 10 ==> decimal(n).len() >= 2,
    decreases n,
{
    if n >= 10 {
        lemma_decimal_nonempty(n / 10);
    }
}

/// Decimal notation holds digits only.
pub proof fn lemma_decimal_digits(n: nat)
    ensures
        forall|k: int| 0 <= k < decimal(n).len() ==> '0' <= #[trigger] decimal(n)[k] <= '9',
    decreases n,
{
    if n >= 10 {
        lemma_decimal_digits(n / 10);
        assert forall|k: int| 0 <= k < decimal(n).len() implies '0' <= #[trigger] decimal(n)[k] <= '9' by {
            if k < decimal(n / 10).len() {
                assert(decimal(n)[k] == decimal(n / 10)[k]);
            }
        }
    }
}

/// Distinct numbers have distinct decimal notations.
pub proof fn lemma_decimal_injective(a: nat, b: nat)
    requires
        decimal(a) == decimal(b),
    ensures
        a == b,
    decreases a,
{
    lemma_decimal_nonempty(a);
    lemma_decimal_nonempty(b);
    if a >= 10 && b >= 10 {
        let da = decimal(a);
        assert(da.last() == digit(a % 10));
        assert(decimal(b).last() == digit(b % 10));
        lemma_digit_injective(a % 10, b % 10);
        assert(da.drop_last() =~= decimal(a / 10));
        assert(decimal(b).drop_last() =~= decimal(b / 10));
        lemma_decimal_injective(a / 10, b / 10);
    } else if a < 10 && b < 10 {
        assert(decimal(a)[0] == digit(a));
        assert(decimal(b)[0] == digit(b));
        lemma_digit_injective(a, b);
    }
}

proof fn lemma_digit_injective(x: nat, y: nat)
    requires
        x < 10,
        y < 10,
        digit(x) == digit(y),
    ensures
        x == y,
{
}

fn digit_str(d: usize) -> (r: &'static str)
    requires
        d < 10,
    ensures
        r@ == seq![digit(d as nat)],
{
    proof {
        reveal_strlit("0");
        reveal_strlit("1");
        reveal_strlit("2");
        reveal_strlit("3");
        reveal_strlit("4");
        reveal_strlit("5");
        reveal_strlit("6");
        reveal_strlit("7");
        reveal_strlit("8");
        reveal_strlit("9");
    }
    let r = if d == 0 {
        "0"
    } else if d == 1 {
        "1"
    } else if d == 2 {
        "2"
    } else if d == 3 {
        "3"
    } else if d == 4 {
        "4"
    } else if d == 5 {
        "5"
    } else if d == 6 {
        "6"
    } else if d == 7 {
        "7"
    } else if d == 8 {
        "8"
    } else {
        "9"
    };
    assert(r@ =~= seq![digit(d as nat)]);
    r
}

/// Appends the decimal notation of `n`.
pub fn append_decimal(s: &mut String, n: usize)
    ensures
        final(s)@ == old(s)@ + decimal(n as nat),
    decreases n,
{
    if n >= 10 {
        append_decimal(s, n / 10);
    }
    s.append(digit_str(n % 10));
    assert(decimal(n as nat) =~= if n < 10 {
        seq![digit(n as nat)]
    } else {
        decimal((n / 10) as nat).push(digit((n % 10) as nat))
    });
}

} // verus!
