use vstd::prelude::*;

verus! {

/// Two strings are equal exactly when their character sequences are.
pub fn str_eq(a: &str, b: &str) -> (r: bool)
    ensures
        r == (a@ == b@),
{
    let na = a.unicode_len();
    let nb = b.unicode_len();
    if na != nb {
        return false;
    }
    let mut i: usize = 0;
    while i < na
        invariant
            na == a@.len(),
            na == b@.len(),
            i <= na,
            forall|k: int| 0 <= k < i ==> a@[k] == b@[k],
        decreases na - i,
    {
        if a.get_char(i) != b.get_char(i) {
            return false;
        }
        i = i + 1;
    }
    proof {
        assert(a@ =~= b@);
    }
    true
}

/// Where a path's final component begins: just after the last separator, or
/// at the start of the path when it has none.
pub open spec fn component_start(s: Seq<char>) -> int
    decreases s.len(),
{
    if s.len() == 0 {
        0
    } else if s.last() == '/' {
        s.len() as int
    } else {
        component_start(s.drop_last())
    }
}

/// Whether a path's final component has an extension: a dot that is not the
/// component's first character.
pub open spec fn spec_has_extension(s: Seq<char>) -> bool {
    exists|j: int| component_start(s) < j < s.len() && s[j] == '.'
}

/// Find where the final component begins and whether it has an extension.
fn scan_extension(s: &str) -> (r: (usize, bool))
    ensures
        r.0 == component_start(s@),
        r.0 <= s@.len(),
        r.1 == spec_has_extension(s@),
{
    let n = s.unicode_len();
    let mut i: usize = 0;
    let mut cs: usize = 0;
    let mut dot: bool = false;
    while i < n
        invariant
            i <= n,
            n == s@.len(),
            cs <= i,
            cs == component_start(s@.take(i as int)),
            dot == exists|j: int| cs < j < i && s@[j] == '.',
        decreases n - i,
    {
        let c = s.get_char(i);
        proof {
            assert(s@.take(i + 1).drop_last() =~= s@.take(i as int));
            assert(s@.take(i + 1).last() == s@[i as int]);
        }
        if c == '/' {
            cs = i + 1;
            dot = false;
        } else if c == '.' && i > cs {
            dot = true;
            proof {
                assert(cs < i < i + 1 && s@[i as int] == '.');
            }
        }
        i = i + 1;
    }
    proof {
        assert(s@.take(n as int) =~= s@);
    }
    (cs, dot)
}

/// The textual convention shared by descriptor files and part files: the
/// given suffix becomes a further extension of the path's file name.  A path
/// whose final component already has an extension gets a dot and the suffix;
/// one without gets the empty extension first, hence two dots.
pub open spec fn spec_add_path_extension(path: Seq<char>, ext: Seq<char>) -> Seq<char> {
    if spec_has_extension(path) {
        path + seq!['.'] + ext
    } else {
        path + seq!['.', '.'] + ext
    }
}

/// Append `ext` as a further extension of `path`'s file name.
pub fn add_path_extension(path: &str, ext: &str) -> (r: String)
    ensures
        r@ == spec_add_path_extension(path@, ext@),
{
    let scan = scan_extension(path);
    let mut r = path.to_owned();
    if scan.1 {
        r.append(".");
    } else {
        r.append("..");
    }
    r.append(ext);
    proof {
        reveal_strlit(".");
        reveal_strlit("..");
        assert(r@ =~= spec_add_path_extension(path@, ext@));
    }
    r
}

/// The text after the last slash of `s`: the file name a path or URL ends
/// with.
pub open spec fn after_last_slash(s: Seq<char>) -> Seq<char> {
    s.skip(component_start(s))
}

/// Extract the final component of `s`.
pub fn file_component(s: &str) -> (r: String)
    ensures
        r@ == after_last_slash(s@),
{
    let scan = scan_extension(s);
    let n = s.unicode_len();
    let w = s.substring_char(scan.0, n);
    proof {
        assert(w@ =~= s@.skip(scan.0 as int));
    }
    w.to_owned()
}

/// `s` with every leading repetition of `p` removed.
pub open spec fn strip_prefix_all(s: Seq<char>, p: Seq<char>) -> Seq<char>
    decreases s.len(),
{
    if p.len() > 0 && s.len() >= p.len() && s.take(p.len() as int) == p {
        strip_prefix_all(s.skip(p.len() as int), p)
    } else {
        s
    }
}

/// `s` with every trailing repetition of `p` removed.
pub open spec fn strip_suffix_all(s: Seq<char>, p: Seq<char>) -> Seq<char>
    decreases s.len(),
{
    if p.len() > 0 && s.len() >= p.len() && s.skip(s.len() - p.len()) == p {
        strip_suffix_all(s.take(s.len() - p.len()), p)
    } else {
        s
    }
}

/// Remove every leading repetition of `p` from `s`.
pub fn trim_prefix_matches(s: &str, p: &str) -> (r: String)
    ensures
        r@ == strip_prefix_all(s@, p@),
    decreases s@.len(),
{
    let pl = p.unicode_len();
    let n = s.unicode_len();
    if pl > 0 && n >= pl {
        let w = s.substring_char(0, pl);
        proof {
            assert(w@ =~= s@.take(pl as int));
        }
        if str_eq(w, p) {
            let rest = s.substring_char(pl, n);
            proof {
                assert(rest@ =~= s@.skip(pl as int));
            }
            return trim_prefix_matches(rest, p);
        }
    }
    s.to_owned()
}

/// Remove every trailing repetition of `p` from `s`.
pub fn trim_suffix_matches(s: &str, p: &str) -> (r: String)
    ensures
        r@ == strip_suffix_all(s@, p@),
    decreases s@.len(),
{
    let pl = p.unicode_len();
    let n = s.unicode_len();
    if pl > 0 && n >= pl {
        let w = s.substring_char(n - pl, n);
        proof {
            assert(w@ =~= s@.skip(n - pl));
        }
        if str_eq(w, p) {
            let rest = s.substring_char(0, n - pl);
            proof {
                assert(rest@ =~= s@.take(n - pl));
            }
            return trim_suffix_matches(rest, p);
        }
    }
    s.to_owned()
}

/// The decimal digit character for `d`.
pub open spec fn digit_char(d: int) -> char {
    if d == 0 {
        '0'
    } else if d == 1 {
        '1'
    } else if d == 2 {
        '2'
    } else if d == 3 {
        '3'
    } else if d == 4 {
        '4'
    } else if d == 5 {
        '5'
    } else if d == 6 {
        '6'
    } else if d == 7 {
        '7'
    } else if d == 8 {
        '8'
    } else {
        '9'
    }
}

/// The decimal representation of `n`, most significant digit first.
pub open spec fn dec_rep(n: int) -> Seq<char>
    decreases n,
{
    if n < 10 {
        seq![digit_char(n)]
    } else {
        dec_rep(n / 10).push(digit_char(n % 10))
    }
}

/// The one-character string for the decimal digit `d`.
fn digit_str(d: u64) -> (r: &'static str)
    requires
        d < 10,
    ensures
        r@ == seq![digit_char(d as int)],
{
    proof {
        reveal_strlit("0");
        reveal_strlit("1");
        reveal_strlit("2");
        reveal_strlit("3");
        reveal_strlit("4");
        reveal_strlit("5");
        reveal_strlit("6");
        reveal_strlit("7");
        reveal_strlit("8");
        reveal_strlit("9");
    }
    let r = if d == 0 {
        "0"
    } else if d == 1 {
        "1"
    } else if d == 2 {
        "2"
    } else if d == 3 {
        "3"
    } else if d == 4 {
        "4"
    } else if d == 5 {
        "5"
    } else if d == 6 {
        "6"
    } else if d == 7 {
        "7"
    } else if d == 8 {
        "8"
    } else {
        "9"
    };
    proof {
        assert(r@ =~= seq![digit_char(d as int)]);
    }
    r
}

/// The decimal text of `n`, exactly as `u64` values are written.
pub fn u64_to_string(n: u64) -> (r: String)
    ensures
        r@ == dec_rep(n as int),
    decreases n,
{
    if n < 10 {
        let d = digit_str(n);
        let r = d.to_owned();
        proof {
            assert(r@ =~= dec_rep(n as int));
        }
        r
    } else {
        let mut r = u64_to_string(n / 10);
        let d = digit_str(n % 10);
        r.append(d);
        proof {
            assert(r@ =~= dec_rep(n as int));
        }
        r
    }
}

/// Whether `c` is a decimal digit.
pub open spec fn is_digit(c: char) -> bool {
    '0' <= c && c <= '9'
}

/// The numeric value of the digit `c`.
pub open spec fn digit_val(c: char) -> int {
    c as int - '0' as int
}

/// The number the digit string `s` denotes.
pub open spec fn dec_val(s: Seq<char>) -> int
    decreases s.len(),
{
    if s.len() == 0 {
        0
    } else {
        dec_val(s.drop_last()) * 10 + digit_val(s.last())
    }
}

/// Whether every character of `s` is a decimal digit.
pub open spec fn all_digits(s: Seq<char>) -> bool {
    forall|i: int| 0 <= i < s.len() ==> is_digit(#[trigger] s[i])
}

/// The body of a numeric literal: an optional leading plus sign is skipped.
pub open spec fn numeric_body(s: Seq<char>) -> Seq<char> {
    if s.len() > 0 && s[0] == '+' {
        s.skip(1)
    } else {
        s
    }
}

/// A digit string denotes a nonnegative number.
proof fn lemma_dec_val_nonneg(s: Seq<char>)
    requires
        all_digits(s),
    ensures
        dec_val(s) >= 0,
    decreases s.len(),
{
    if s.len() > 0 {
        assert(all_digits(s.drop_last()));
        lemma_dec_val_nonneg(s.drop_last());
    }
}

/// Extending a digit string never shrinks the number it denotes.
proof fn lemma_dec_val_monotone(s: Seq<char>, k: int)
    requires
        all_digits(s),
        0 <= k <= s.len(),
    ensures
        dec_val(s) >= dec_val(s.take(k)),
    decreases s.len() - k,
{
    if k == s.len() {
        assert(s.take(k) =~= s);
    } else {
        assert(s.take(k + 1).drop_last() =~= s.take(k));
        assert(all_digits(s.take(k)));
        lemma_dec_val_nonneg(s.take(k));
        assert(dec_val(s.take(k + 1)) >= dec_val(s.take(k)));
        lemma_dec_val_monotone(s, k + 1);
    }
}

/// Parse decimal text the way `u64` values are read: an optional leading
/// plus sign, then at least one digit, denoting a value that fits in 64
/// bits; anything else is rejected.
pub fn parse_u64(s: &str) -> (r: Option<u64>)
    ensures
        match r {
            Some(v) => numeric_body(s@).len() > 0 && all_digits(numeric_body(s@)) && v
                == dec_val(numeric_body(s@)),
            None => numeric_body(s@).len() == 0 || !all_digits(numeric_body(s@)) || dec_val(
                numeric_body(s@),
            ) > u64::MAX,
        },
{
    let n = s.unicode_len();
    let start: usize = if n > 0 && s.get_char(0) == '+' {
        1
    } else {
        0
    };
    let ghost body = numeric_body(s@);
    proof {
        assert(s@.skip(0) =~= s@);
        assert(body =~= s@.skip(start as int));
    }
    if start == n {
        return None;
    }
    let mut i: usize = start;
    let mut v: u64 = 0;
    while i < n
        invariant
            start <= i <= n,
            n == s@.len(),
            body == numeric_body(s@),
            body == s@.skip(start as int),
            body.len() == n - start,
            all_digits(body.take(i - start)),
            v == dec_val(body.take(i - start)),
        decreases n - i,
    {
        let c = s.get_char(i);
        let cu = c as u32;
        let ghost k = i - start;
        proof {
            assert(body[k] == s@[i as int]);
            assert(body.take(k + 1).drop_last() =~= body.take(k));
            assert(body.take(k + 1).last() == body[k]);
        }
        if cu < 48 || cu > 57 {
            proof {
                assert(!is_digit(body[k]));
            }
            return None;
        }
        let d = (cu - 48) as u64;
        proof {
            assert(is_digit(body[k]));
            assert(d == digit_val(body[k]));
        }
        let next = match v.checked_mul(10) {
            Some(m) => m.checked_add(d),
            None => None,
        };
        match next {
            Some(nv) => {
                proof {
                    assert(all_digits(body.take(k + 1)));
                    assert(nv == dec_val(body.take(k + 1)));
                }
                v = nv;
            },
            None => {
                proof {
                    if all_digits(body) {
                        assert(dec_val(body.take(k + 1)) > u64::MAX);
                        lemma_dec_val_monotone(body, k + 1);
                    }
                }
                return None;
            },
        }
        i = i + 1;
    }
    proof {
        assert(body.take(n - start) =~= body);
    }
    Some(v)
}

/// Decide whether `input` names a valid parallel-download count: a positive
/// decimal number.  The error text says which requirement failed.
pub fn is_number(input: String) -> (r: Result<(), String>)
    ensures
        (r is Ok) == (numeric_body(input@).len() > 0 && all_digits(numeric_body(input@)) && 0
            < dec_val(numeric_body(input@)) <= u64::MAX),
        r matches Err(m) ==> m@ == (if numeric_body(input@).len() > 0 && all_digits(
            numeric_body(input@),
        ) && dec_val(numeric_body(input@)) == 0 {
            "the number of parallel downloads must be greater than 0"@
        } else {
            "the number of parallel downloads must be an integer"@
        }),
{
    match parse_u64(input.as_str()) {
        Some(num) => {
            if num > 0 {
                Ok(())
            } else {
                Err(String::from_str("the number of parallel downloads must be greater than 0"))
            }
        },
        None => Err(String::from_str("the number of parallel downloads must be an integer")),
    }
}

} // verus!
