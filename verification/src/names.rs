//! Listing filenames have the shape `"{seed}.{extension}"`. This module
//! recovers the seed (a decimal `u32`, as `str::parse::<u32>` reads one,
//! including an optional leading `+`) and classifies the extension.
use vstd::prelude::*;

verus! {

broadcast use vstd::string::group_string_axioms;

/// Kind tag recovered from a filename's extension.
#[derive(PartialEq, Eq, Structural, Clone, Copy, Debug)]
pub enum FileKind {
    Ron,
    Png,
    Other,
}

pub open spec fn is_digit(c: char) -> bool {
    48 <= c as u32 <= 57
}

pub open spec fn digit_val(c: char) -> int {
    c as u32 - 48
}

/// Value of a digit string read in base ten.
pub open spec fn dec_val(s: Seq<char>) -> int
    decreases s.len(),
{
    if s.len() == 0 {
        0
    } else {
        dec_val(s.drop_last()) * 10 + digit_val(s.last())
    }
}

pub open spec fn all_digits(s: Seq<char>) -> bool {
    forall|i: int| 0 <= i < s.len() ==> is_digit(#[trigger] s[i])
}

/// The digits of a numeral, after any single leading `+` sign.
pub open spec fn numeral_body(s: Seq<char>) -> Seq<char> {
    if s.len() > 0 && s[0] == '+' {
        s.drop_first()
    } else {
        s
    }
}

/// Exactly the strings `str::parse::<u32>` accepts.
pub open spec fn is_u32_numeral(s: Seq<char>) -> bool {
    &&& numeral_body(s).len() > 0
    &&& all_digits(numeral_body(s))
    &&& dec_val(numeral_body(s)) <= u32::MAX
}

pub open spec fn u32_numeral_val(s: Seq<char>) -> int {
    dec_val(numeral_body(s))
}

/// Index of the first `.` in `s`, or `s.len()` if there is none.
pub open spec fn first_dot(s: Seq<char>) -> int
    decreases s.len(),
{
    if s.len() == 0 {
        0
    } else if s[0] == '.' {
        0
    } else {
        1 + first_dot(s.drop_first())
    }
}

/// A filename is well formed when it has an extension separator and its stem
/// is a `u32` numeral.
pub open spec fn wf_name(name: Seq<char>) -> bool {
    &&& first_dot(name) < name.len()
    &&& is_u32_numeral(name.subrange(0, first_dot(name)))
}

pub open spec fn name_seed(name: Seq<char>) -> int {
    u32_numeral_val(name.subrange(0, first_dot(name)))
}

/// Everything after the first dot.
pub open spec fn name_ext(name: Seq<char>) -> Seq<char> {
    name.subrange(first_dot(name) + 1, name.len() as int)
}

pub open spec fn kind_of(ext: Seq<char>) -> FileKind {
    if ext == "ron"@ {
        FileKind::Ron
    } else if ext == "png"@ {
        FileKind::Png
    } else {
        FileKind::Other
    }
}

proof fn lemma_first_dot_bounds(s: Seq<char>)
    ensures
        0 <= first_dot(s) <= s.len(),
        forall|j: int| 0 <= j < first_dot(s) ==> #[trigger] s[j] != '.',
        first_dot(s) < s.len() ==> s[first_dot(s)] == '.',
    decreases s.len(),
{
    if s.len() == 0 {
    } else if s[0] == '.' {
    } else {
        lemma_first_dot_bounds(s.drop_first());
        assert forall|j: int| 0 <= j < first_dot(s) implies #[trigger] s[j] != '.' by {
            if j > 0 {
                assert(s.drop_first()[j - 1] != '.');
            }
        }
    }
}

proof fn lemma_dec_val_nonneg(s: Seq<char>)
    requires
        all_digits(s),
    ensures
        dec_val(s) >= 0,
    decreases s.len(),
{
    if s.len() > 0 {
        assert(all_digits(s.drop_last()));
        lemma_dec_val_nonneg(s.drop_last());
    }
}

/// The value of a digit string only grows as digits are appended.
proof fn lemma_dec_val_prefix(s: Seq<char>, i: int)
    requires
        all_digits(s),
        0 <= i <= s.len(),
    ensures
        dec_val(s.subrange(0, i)) <= dec_val(s),
    decreases s.len() - i,
{
    if i == s.len() {
        assert(s.subrange(0, i) =~= s);
    } else {
        lemma_dec_val_prefix(s, i + 1);
        let t = s.subrange(0, i + 1);
        assert(t.drop_last() =~= s.subrange(0, i));
        assert(all_digits(s.subrange(0, i)));
        lemma_dec_val_nonneg(s.subrange(0, i));
        assert(dec_val(t) == dec_val(s.subrange(0, i)) * 10 + digit_val(t.last()));
        assert(dec_val(s.subrange(0, i)) * 10 >= dec_val(s.subrange(0, i))) by (nonlinear_arith)
            requires dec_val(s.subrange(0, i)) >= 0;
    }
}

/// Reads the stem `name[0..end]` as a `u32`, as `str::parse` would.
fn parse_seed(name: &str, end: usize) -> (r: Option<u32>)
    requires
        end <= name@.len(),
    ensures
        r is Some <==> is_u32_numeral(name@.subrange(0, end as int)),
        r matches Some(v) ==> v == u32_numeral_val(name@.subrange(0, end as int)),
{
    let ghost stem = name@.subrange(0, end as int);
    let mut start: usize = 0;
    if end > 0 && name.get_char(0) == '+' {
        start = 1;
    }
    proof {
        assert(numeral_body(stem) =~= name@.subrange(start as int, end as int));
    }
    let ghost body = numeral_body(stem);
    if start == end {
        return None;
    }
    let mut i: usize = start;
    let mut val: u64 = 0;
    while i < end
        invariant
            start <= i <= end <= name@.len(),
            body == numeral_body(name@.subrange(0, end as int)),
            body == name@.subrange(start as int, end as int),
            body.len() == end - start > 0,
            all_digits(body.subrange(0, i - start)),
            val == dec_val(body.subrange(0, i - start)),
            val <= u32::MAX,
        decreases end - i,
    {
        let c = name.get_char(i);
        let cu = c as u32;
        proof {
            assert(body[i - start] == c);
        }
        if cu < 48 || cu > 57 {
            assert(!all_digits(body));
            return None;
        }
        let ghost prev = body.subrange(0, i - start);
        let ghost cur = body.subrange(0, i + 1 - start);
        proof {
            assert(cur.drop_last() =~= prev);
            assert(cur.last() == c);
        }
        val = val * 10 + (cu - 48) as u64;
        assert(val == dec_val(cur));
        if val > 0xffff_ffff {
            proof {
                if all_digits(body) {
                    lemma_dec_val_prefix(body, i + 1 - start);
                }
            }
            return None;
        }
        i = i + 1;
    }
    proof {
        assert(body.subrange(0, end - start) =~= body);
    }
    Some(val as u32)
}

pub open spec fn digit_char(d: int) -> char {
    if d == 0 {
        '0'
    } else if d == 1 {
        '1'
    } else if d == 2 {
        '2'
    } else if d == 3 {
        '3'
    } else if d == 4 {
        '4'
    } else if d == 5 {
        '5'
    } else if d == 6 {
        '6'
    } else if d == 7 {
        '7'
    } else {
        if d == 8 {
            '8'
        } else {
            '9'
        }
    }
}

/// Decimal digits of a nonnegative integer, most significant first.
pub open spec fn dec_digits(n: int) -> Seq<char>
    decreases n,
{
    if n < 10 {
        seq![digit_char(n)]
    } else {
        dec_digits(n / 10).push(digit_char(n % 10))
    }
}

pub proof fn lemma_dec_digits(n: int)
    requires
        0 <= n,
    ensures
        all_digits(dec_digits(n)),
        dec_digits(n).len() >= 1,
        dec_val(dec_digits(n)) == n,
        dec_digits(n)[0] != '+',
        n <= u32::MAX ==> is_u32_numeral(dec_digits(n)) && u32_numeral_val(dec_digits(n)) == n,
    decreases n,
{
    if n < 10 {
        let s = seq![digit_char(n)];
        assert(s.len() == 1 && s.last() == digit_char(n));
        assert(s.drop_last() =~= Seq::<char>::empty());
        assert(dec_val(Seq::<char>::empty()) == 0);
        assert(dec_val(s) == digit_val(digit_char(n)));
        assert(numeral_body(s) == s);
    } else {
        lemma_dec_digits(n / 10);
        let s = dec_digits(n);
        assert(s.drop_last() =~= dec_digits(n / 10));
        assert(dec_val(s) == dec_val(dec_digits(n / 10)) * 10 + digit_val(digit_char(n % 10)));
        assert(s[0] == dec_digits(n / 10)[0]);
        assert(numeral_body(s) == s);
    }
}

/// Renders an integer in decimal, as seeds appear in paths and labels.
pub fn u32_decimal(n: u32) -> (r: String)
    ensures
        r@ == dec_digits(n as int),
    decreases n,
{
    let d = n % 10;
    let c: &str = match d {
        0 => "0",
        1 => "1",
        2 => "2",
        3 => "3",
        4 => "4",
        5 => "5",
        6 => "6",
        7 => "7",
        8 => "8",
        _ => "9",
    };
    proof {
        reveal_strlit("0");
        reveal_strlit("1");
        reveal_strlit("2");
        reveal_strlit("3");
        reveal_strlit("4");
        reveal_strlit("5");
        reveal_strlit("6");
        reveal_strlit("7");
        reveal_strlit("8");
        reveal_strlit("9");
        assert(c@ =~= seq![digit_char(d as int)]);
    }
    if n >= 10 {
        let mut r = u32_decimal(n / 10);
        r.append(c);
        proof {
            assert(r@ =~= dec_digits((n / 10) as int).push(digit_char(d as int)));
        }
        r
    } else {
        let r = String::from_str(c);
        r
    }
}

/// Character-by-character string equality.
pub fn str_eq(a: &str, b: &str) -> (r: bool)
    ensures
        r == (a@ == b@),
{
    let na = a.unicode_len();
    let nb = b.unicode_len();
    if na != nb {
        return false;
    }
    let mut i: usize = 0;
    while i < na
        invariant
            i <= na == a@.len() == b@.len(),
            forall|k: int| 0 <= k < i ==> a@[k] == b@[k],
        decreases na - i,
    {
        if a.get_char(i) != b.get_char(i) {
            return false;
        }
        i = i + 1;
    }
    proof {
        assert(a@ =~= b@);
    }
    true
}

/// Reads a whole string as a `u32`, as `str::parse::<u32>` would.
pub fn parse_u32_str(s: &str) -> (r: Option<u32>)
    ensures
        r is Some <==> is_u32_numeral(s@),
        r matches Some(v) ==> v == u32_numeral_val(s@),
{
    let n = s.unicode_len();
    proof {
        assert(s@.subrange(0, n as int) =~= s@);
    }
    parse_seed(s, n)
}

/// Splits a listing filename into its seed and file kind, mirroring a
/// `split_once('.')` followed by an integer parse of the stem: `None`
/// exactly when there is no dot or the stem is not a `u32` numeral.
pub fn parse_name(name: &str) -> (r: Option<(u32, FileKind)>)
    ensures
        r is Some <==> wf_name(name@),
        r matches Some(p) ==> p.0 == name_seed(name@) && p.1 == kind_of(name_ext(name@)),
{
    proof {
        lemma_first_dot_bounds(name@);
    }
    let n = name.unicode_len();
    let mut d: usize = 0;
    while d < n && name.get_char(d) != '.'
        invariant
            d <= n == name@.len(),
            forall|j: int| 0 <= j < d ==> #[trigger] name@[j] != '.',
        decreases n - d,
    {
        d = d + 1;
    }
    proof {
        // `d` is the first dot: no earlier index holds one, and if `d < n`
        // the character there is a dot.
        if d < n {
            if first_dot(name@) < d {
                assert(name@[first_dot(name@)] != '.');
            }
            if first_dot(name@) > d {
                assert(name@[d as int] != '.');
            }
        }
        assert(first_dot(name@) == d as int || d == n);
        if d == n {
            if first_dot(name@) < n {
                assert(name@[first_dot(name@)] != '.');
            }
        }
    }
    if d == n {
        assert(!wf_name(name@));
        return None;
    }
    let seed = match parse_seed(name, d) {
        Some(s) => s,
        None => {
            return None;
        },
    };
    let ghost e = name_ext(name@);
    proof {
        reveal_strlit("ron");
        reveal_strlit("png");
        assert(e.len() == n - d - 1);
    }
    let ext_len = n - d - 1;
    let kind = if ext_len == 3 {
        let c0 = name.get_char(d + 1);
        let c1 = name.get_char(d + 2);
        let c2 = name.get_char(d + 3);
        proof {
            assert(e[0] == name@[d + 1] && e[1] == name@[d + 2] && e[2] == name@[d + 3]);
        }
        if c0 == 'r' && c1 == 'o' && c2 == 'n' {
            assert(e =~= "ron"@);
            FileKind::Ron
        } else if c0 == 'p' && c1 == 'n' && c2 == 'g' {
            assert(e =~= "png"@);
            assert(e != "ron"@);
            FileKind::Png
        } else {
            assert(e != "ron"@ && e != "png"@);
            FileKind::Other
        }
    } else {
        assert(e != "ron"@ && e != "png"@);
        FileKind::Other
    };
    Some((seed, kind))
}

} // verus!
