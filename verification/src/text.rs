use vstd::prelude::*;

verus! {

/// The code an ASCII upper-case letter takes once lowered; any other
/// character keeps its own code.
pub open spec fn ascii_lower_code(c: char) -> u32 {
    if 'A' <= c && c <= 'Z' {
        (c as u32 + 32) as u32
    } else {
        c as u32
    }
}

/// `s` and `t` are equal once ASCII letters are folded to lower case.
pub open spec fn eq_ignore_ascii_case_spec(s: Seq<char>, t: Seq<char>) -> bool {
    &&& s.len() == t.len()
    &&& forall|i: int| 0 <= i < s.len() ==> ascii_lower_code(#[trigger] s[i]) == ascii_lower_code(t[i])
}

/// The characters of a string slice, in order.
pub fn chars_of(s: &str) -> (r: Vec<char>)
    ensures
        r@ == s@,
{
    let mut r: Vec<char> = Vec::new();
    for c in it: s.chars()
        invariant
            it.seq() == s@,
            r@ == it.seq().take(it.index() as int),
    {
        r.push(c);
    }
    r
}

/// Lowers an ASCII letter to its code, as `ascii_lower_code` says.
pub fn ascii_lower_code_of(c: char) -> (r: u32)
    ensures
        r == ascii_lower_code(c),
{
    if 'A' <= c && c <= 'Z' {
        c as u32 + 32
    } else {
        c as u32
    }
}

/// ASCII case-insensitive equality, as `str::eq_ignore_ascii_case`.
pub fn eq_ignore_ascii_case(s: &str, t: &str) -> (r: bool)
    ensures
        r == eq_ignore_ascii_case_spec(s@, t@),
{
    let a = chars_of(s);
    let b = chars_of(t);
    if a.len() != b.len() {
        return false;
    }
    let mut i: usize = 0;
    while i < a.len()
        invariant
            a@ == s@,
            b@ == t@,
            a.len() == b.len(),
            i <= a.len(),
            forall|j: int| 0 <= j < i ==> ascii_lower_code(#[trigger] a@[j]) == ascii_lower_code(b@[j]),
        decreases a.len() - i,
    {
        if ascii_lower_code_of(a[i]) != ascii_lower_code_of(b[i]) {
            return false;
        }
        i = i + 1;
    }
    true
}

} // verus!

verus! {

/// Whether two string slices hold the same characters.
pub fn str_eq(a: &str, b: &str) -> (r: bool)
    ensures
        r == (a@ == b@),
{
    let x = chars_of(a);
    let y = chars_of(b);
    if x.len() != y.len() {
        return false;
    }
    let mut i: usize = 0;
    while i < x.len()
        invariant
            x@ == a@,
            y@ == b@,
            x.len() == y.len(),
            i <= x.len(),
            forall|j: int| 0 <= j < i ==> x@[j] == y@[j],
        decreases x.len() - i,
    {
        if x[i] != y[i] {
            return false;
        }
        i = i + 1;
    }
    assert(x@ =~= y@);
    true
}

/// What `str::to_uppercase` gives for a string (full Unicode case mapping).
pub uninterp spec fn unicode_upper(s: Seq<char>) -> Seq<char>;

/// What `str::to_lowercase` gives for a string (full Unicode case mapping).
pub uninterp spec fn unicode_lower(s: Seq<char>) -> Seq<char>;

/// Whether a character has the Unicode White_Space property, which is what
/// `char::is_whitespace` answers: the controls U+0009 to U+000D, the space,
/// U+0085, the no-break space U+00A0, U+1680, the spaces U+2000 to U+200A,
/// the line and paragraph separators U+2028 and U+2029, U+202F, U+205F and
/// the ideographic space U+3000.
pub open spec fn unicode_whitespace(c: char) -> bool {
    ||| ('\u{9}' <= c && c <= '\u{d}')
    ||| c == ' '
    ||| c == '\u{85}'
    ||| c == '\u{a0}'
    ||| c == '\u{1680}'
    ||| ('\u{2000}' <= c && c <= '\u{200a}')
    ||| c == '\u{2028}'
    ||| c == '\u{2029}'
    ||| c == '\u{202f}'
    ||| c == '\u{205f}'
    ||| c == '\u{3000}'
}

/// Calls `str::to_uppercase`; the contract claims only that the result is
/// a function of the input characters alone.
#[verifier::external_body]
pub fn to_upper(s: &str) -> (r: String)
    ensures
        r@ == unicode_upper(s@),
{
    s.to_uppercase()
}

/// Calls `str::to_lowercase`; the contract claims only that the result is
/// a function of the input characters alone.
#[verifier::external_body]
pub fn to_lower(s: &str) -> (r: String)
    ensures
        r@ == unicode_lower(s@),
{
    s.to_lowercase()
}

/// Whether `c` is white space in the sense of `unicode_whitespace`.
pub fn is_whitespace(c: char) -> (r: bool)
    ensures
        r == unicode_whitespace(c),
{
    ('\u{9}' <= c && c <= '\u{d}')
        || c == ' '
        || c == '\u{85}'
        || c == '\u{a0}'
        || c == '\u{1680}'
        || ('\u{2000}' <= c && c <= '\u{200a}')
        || c == '\u{2028}'
        || c == '\u{2029}'
        || c == '\u{202f}'
        || c == '\u{205f}'
        || c == '\u{3000}'
}

/// Calls `String::push`, which appends one character.
#[verifier::external_body]
pub fn push_char(s: &mut String, c: char)
    ensures
        final(s)@ == old(s)@.push(c),
{
    s.push(c)
}

} // verus!

verus! {

/// The decimal digit character for `d` (below ten).
pub open spec fn digit_char(d: nat) -> char {
    ((d + 48) as u32) as char
}

/// The decimal spelling of `n`, most significant digit first.
pub open spec fn decimal(n: nat) -> Seq<char>
    decreases n,
{
    if n < 10 {
        seq![digit_char(n)]
    } else {
        decimal(n / 10).push(digit_char(n % 10))
    }
}

/// `n` spelled in decimal, as `usize::to_string` writes it.
pub fn usize_to_string(n: usize) -> (r: String)
    ensures
        r@ == decimal(n as nat),
    decreases n,
{
    let mut s = if n < 10 {
        String::new()
    } else {
        usize_to_string(n / 10)
    };
    let d = (n % 10) as u8;
    let c = (48u8 + d) as char;
    assert(c == digit_char((n % 10) as nat));
    push_char(&mut s, c);
    assert(s@ =~= decimal(n as nat));
    s
}

/// A decimal digit character.
pub open spec fn is_digit(c: char) -> bool {
    '0' <= c && c <= '9'
}

/// The number the decimal digits of `s` spell.
pub open spec fn digits_value(s: Seq<char>) -> nat
    decreases s.len(),
{
    if s.len() == 0 {
        0
    } else {
        digits_value(s.drop_last()) * 10 + ((s.last() as u32) - 48) as nat
    }
}

/// The characters after an optional leading `+`.
pub open spec fn unsigned_body(s: Seq<char>) -> Seq<char> {
    if s.len() > 0 && s[0] == '+' { s.drop_first() } else { s }
}

/// What `str::parse::<usize>` accepts: an optional `+`, then one or more
/// decimal digits, spelling a number that fits a `usize`.
pub open spec fn parse_usize_spec(s: Seq<char>) -> Option<nat> {
    let body = unsigned_body(s);
    if body.len() == 0 || exists|i: int| 0 <= i < body.len() && !is_digit(#[trigger] body[i]) {
        None
    } else if digits_value(body) <= usize::MAX {
        Some(digits_value(body))
    } else {
        None
    }
}

proof fn lemma_digits_value_grows(s: Seq<char>, c: char)
    requires
        is_digit(c),
    ensures
        digits_value(s.push(c)) >= digits_value(s),
        digits_value(s.push(c)) == digits_value(s) * 10 + ((c as u32) - 48) as nat,
{
    assert(s.push(c).drop_last() =~= s);
}

/// Reads a `usize` in decimal, as `str::parse::<usize>` does.
pub fn parse_usize(s: &str) -> (r: Option<usize>)
    ensures
        match parse_usize_spec(s@) {
            Some(v) => r == Some(v as usize),
            None => r is None,
        },
{
    let cs = chars_of(s);
    let start: usize = if cs.len() > 0 && cs[0] == '+' { 1 } else { 0 };
    let ghost body = unsigned_body(s@);
    proof {
        assert(body =~= cs@.skip(start as int));
    }
    if start >= cs.len() {
        return None;
    }
    let mut acc: usize = 0;
    let mut overflow = false;
    let mut i: usize = start;
    while i < cs.len()
        invariant
            cs@ == s@,
            body == unsigned_body(s@),
            body == cs@.skip(start as int),
            start <= i <= cs@.len(),
            forall|j: int| start <= j < i ==> is_digit(#[trigger] cs@[j]),
            !overflow ==> acc == digits_value(cs@.subrange(start as int, i as int)),
            overflow ==> digits_value(cs@.subrange(start as int, i as int)) > usize::MAX,
        decreases cs@.len() - i,
    {
        let c = cs[i];
        if !('0' <= c && c <= '9') {
            proof {
                assert(body[i - start] == c);
                assert(!is_digit(body[i - start]));
                assert(exists|j: int| 0 <= j < body.len() && !is_digit(#[trigger] body[j]));
                assert(parse_usize_spec(s@) is None);
            }
            return None;
        }
        let ghost pre = cs@.subrange(start as int, i as int);
        proof {
            assert(cs@.subrange(start as int, i + 1) =~= pre.push(c));
            lemma_digits_value_grows(pre, c);
        }
        let d = (c as u32 - 48) as usize;
        if !overflow {
            match acc.checked_mul(10) {
                Some(m) => match m.checked_add(d) {
                    Some(v) => {
                        acc = v;
                    },
                    None => {
                        overflow = true;
                    },
                },
                None => {
                    overflow = true;
                },
            }
        }
        i = i + 1;
    }
    proof {
        assert(cs@.subrange(start as int, i as int) =~= body);
        assert forall|j: int| 0 <= j < body.len() implies is_digit(#[trigger] body[j]) by {
            assert(body[j] == cs@[j + start]);
        }
    }
    if overflow {
        None
    } else {
        Some(acc)
    }
}

/// `needle` occurs in `hay` starting at position `i`.
pub open spec fn occurs_at(hay: Seq<char>, needle: Seq<char>, i: int) -> bool {
    0 <= i && i + needle.len() <= hay.len() && hay.subrange(i, i + needle.len() as int) == needle
}

/// `needle` occurs somewhere in `hay`, as `str::contains` tests.
pub open spec fn contains_spec(hay: Seq<char>, needle: Seq<char>) -> bool {
    exists|i: int| occurs_at(hay, needle, i)
}

/// The first position at or after `from` where `needle` occurs in `hay`.
pub fn find_from(hay: &Vec<char>, needle: &Vec<char>, from: usize) -> (r: Option<usize>)
    ensures
        match r {
            Some(i) => from <= i && occurs_at(hay@, needle@, i as int)
                && forall|j: int| from <= j < i ==> !occurs_at(hay@, needle@, j),
            None => forall|j: int| from <= j ==> !occurs_at(hay@, needle@, j),
        },
{
    if needle.len() > hay.len() {
        return None;
    }
    let last = hay.len() - needle.len();
    let mut i = from;
    assert(hay@.len() == hay.len());
    loop
        invariant
            needle@.len() <= hay@.len(),
            hay@.len() <= usize::MAX,
            last == hay@.len() - needle@.len(),
            from <= i,
            forall|j: int| from <= j < i ==> !occurs_at(hay@, needle@, j),
        decreases last + 1 - i,
    {
        if i > last {
            return None;
        }
        let mut k: usize = 0;
        let mut ok = true;
        while k < needle.len()
            invariant
                needle@.len() <= hay@.len(),
                hay@.len() <= usize::MAX,
                i <= last,
                last == hay@.len() - needle@.len(),
                k <= needle@.len(),
                ok == (forall|t: int| 0 <= t < k ==> hay@[i + t] == needle@[t]),
            decreases needle@.len() - k,
        {
            if hay[i + k] != needle[k] {
                ok = false;
                k = needle.len();
            } else {
                k = k + 1;
            }
        }
        if ok {
            assert(hay@.subrange(i as int, i + needle@.len()) =~= needle@);
            return Some(i);
        } else {
            proof {
                let t = choose|t: int| 0 <= t < needle@.len() && hay@[i + t] != needle@[t];
                assert(hay@.subrange(i as int, i + needle@.len())[t] != needle@[t]);
            }
        }
        if i == last {
            return None;
        }
        i = i + 1;
    }
}

/// Whether `needle` occurs in `hay`, as `str::contains` answers.
pub fn contains_str(hay: &str, needle: &str) -> (r: bool)
    ensures
        r == contains_spec(hay@, needle@),
{
    let h = chars_of(hay);
    let n = chars_of(needle);
    match find_from(&h, &n, 0) {
        Some(_) => true,
        None => false,
    }
}

} // verus!

verus! {

/// `s` without its leading white space.
pub open spec fn trim_start_spec(s: Seq<char>) -> Seq<char>
    decreases s.len(),
{
    if s.len() > 0 && unicode_whitespace(s[0]) {
        trim_start_spec(s.drop_first())
    } else {
        s
    }
}

/// `s` without its trailing white space.
pub open spec fn trim_end_spec(s: Seq<char>) -> Seq<char>
    decreases s.len(),
{
    if s.len() > 0 && unicode_whitespace(s.last()) {
        trim_end_spec(s.drop_last())
    } else {
        s
    }
}

/// `s` without leading and trailing white space, as `str::trim` gives it.
pub open spec fn trimmed(s: Seq<char>) -> Seq<char> {
    trim_end_spec(trim_start_spec(s))
}

proof fn lemma_trim_start_suffix(s: Seq<char>)
    ensures
        exists|k: int| 0 <= k <= s.len() && trim_start_spec(s) == s.skip(k)
            && (forall|j: int| 0 <= j < k ==> unicode_whitespace(#[trigger] s[j]))
            && (k < s.len() ==> !unicode_whitespace(s[k])),
    decreases s.len(),
{
    if s.len() > 0 && unicode_whitespace(s[0]) {
        lemma_trim_start_suffix(s.drop_first());
        let k = choose|k: int| 0 <= k <= s.drop_first().len() && trim_start_spec(s.drop_first()) == s.drop_first().skip(k)
            && (forall|j: int| 0 <= j < k ==> unicode_whitespace(#[trigger] s.drop_first()[j]))
            && (k < s.drop_first().len() ==> !unicode_whitespace(s.drop_first()[k]));
        assert(s.drop_first().skip(k) =~= s.skip(k + 1));
        assert forall|j: int| 0 <= j < k + 1 implies unicode_whitespace(#[trigger] s[j]) by {
            if j > 0 {
                assert(s[j] == s.drop_first()[j - 1]);
            }
        }
    } else {
        assert(s.skip(0) =~= s);
    }
}

proof fn lemma_trim_end_prefix(s: Seq<char>)
    ensures
        exists|k: int| 0 <= k <= s.len() && trim_end_spec(s) == s.take(k)
            && (forall|j: int| k <= j < s.len() ==> unicode_whitespace(#[trigger] s[j]))
            && (k > 0 ==> !unicode_whitespace(s[k - 1])),
    decreases s.len(),
{
    if s.len() > 0 && unicode_whitespace(s.last()) {
        lemma_trim_end_prefix(s.drop_last());
        let k = choose|k: int| 0 <= k <= s.drop_last().len() && trim_end_spec(s.drop_last()) == s.drop_last().take(k)
            && (forall|j: int| k <= j < s.drop_last().len() ==> unicode_whitespace(#[trigger] s.drop_last()[j]))
            && (k > 0 ==> !unicode_whitespace(s.drop_last()[k - 1]));
        assert(s.drop_last().take(k) =~= s.take(k));
        assert forall|j: int| k <= j < s.len() implies unicode_whitespace(#[trigger] s[j]) by {
            if j < s.len() - 1 {
                assert(s[j] == s.drop_last()[j]);
            }
        }
    } else {
        assert(s.take(s.len() as int) =~= s);
    }
}

/// Which characters of `s` are white space.
pub open spec fn ws_flags(s: Seq<char>) -> Seq<bool> {
    Seq::new(s.len(), |i: int| unicode_whitespace(s[i]))
}

/// How many flags at the front of `ws` are set.
pub open spec fn leading_set(ws: Seq<bool>) -> nat
    decreases ws.len(),
{
    if ws.len() > 0 && ws[0] {
        1 + leading_set(ws.drop_first())
    } else {
        0
    }
}

/// How many flags at the back of `ws` are set.
pub open spec fn trailing_set(ws: Seq<bool>) -> nat
    decreases ws.len(),
{
    if ws.len() > 0 && ws.last() {
        1 + trailing_set(ws.drop_last())
    } else {
        0
    }
}

/// `s` without the leading and trailing characters flagged in `ws`.
pub open spec fn trimmed_by(s: Seq<char>, ws: Seq<bool>) -> Seq<char> {
    if leading_set(ws) >= s.len() {
        Seq::empty()
    } else {
        s.subrange(leading_set(ws) as int, s.len() - trailing_set(ws))
    }
}

proof fn lemma_leading_set(ws: Seq<bool>)
    ensures
        leading_set(ws) <= ws.len(),
        forall|j: int| 0 <= j < leading_set(ws) ==> #[trigger] ws[j],
        leading_set(ws) < ws.len() ==> !ws[leading_set(ws) as int],
    decreases ws.len(),
{
    if ws.len() > 0 && ws[0] {
        lemma_leading_set(ws.drop_first());
        assert forall|j: int| 0 <= j < leading_set(ws) implies #[trigger] ws[j] by {
            if j > 0 {
                assert(ws[j] == ws.drop_first()[j - 1]);
            }
        }
    }
}

proof fn lemma_trailing_set(ws: Seq<bool>)
    ensures
        trailing_set(ws) <= ws.len(),
        forall|j: int| ws.len() - trailing_set(ws) <= j < ws.len() ==> #[trigger] ws[j],
        trailing_set(ws) < ws.len() ==> !ws[ws.len() - 1 - trailing_set(ws)],
    decreases ws.len(),
{
    if ws.len() > 0 && ws.last() {
        lemma_trailing_set(ws.drop_last());
        assert forall|j: int| ws.len() - trailing_set(ws) <= j < ws.len() implies #[trigger] ws[j] by {
            if j < ws.len() - 1 {
                assert(ws[j] == ws.drop_last()[j]);
            }
        }
    }
}

/// Trimming by the white space flags is trimming.
pub proof fn lemma_trimmed_by_flags(s: Seq<char>)
    ensures
        trimmed(s) == trimmed_by(s, ws_flags(s)),
{
    let ws = ws_flags(s);
    lemma_leading_set(ws);
    lemma_trailing_set(ws);
    lemma_trim_start_suffix(s);
    let k = choose|k: int| 0 <= k <= s.len() && trim_start_spec(s) == s.skip(k)
        && (forall|j: int| 0 <= j < k ==> unicode_whitespace(#[trigger] s[j]))
        && (k < s.len() ==> !unicode_whitespace(s[k]));
    let lead = leading_set(ws) as int;
    assert(k == lead) by {
        if k < lead {
            assert(ws[k]);
        } else if k > lead {
            assert(!ws[lead]);
            assert(unicode_whitespace(s[lead]));
        }
    }
    let u = s.skip(k);
    lemma_trim_end_prefix(u);
    let m = choose|m: int| 0 <= m <= u.len() && trim_end_spec(u) == u.take(m)
        && (forall|j: int| m <= j < u.len() ==> unicode_whitespace(#[trigger] u[j]))
        && (m > 0 ==> !unicode_whitespace(u[m - 1]));
    if lead >= s.len() {
        assert(u.len() == 0);
        assert(trimmed(s) =~= Seq::<char>::empty());
    } else {
        let t = trailing_set(ws) as int;
        assert(!ws[lead]);
        assert(t < s.len() - lead) by {
            if t >= s.len() - lead {
                assert(ws[lead]);
            }
        }
        assert(m == s.len() - lead - t) by {
            if m < s.len() - lead - t {
                assert(u[m] == s[m + lead]);
                assert(unicode_whitespace(u[m]));
                assert(!ws[s.len() - 1 - t]);
                assert(u[s.len() - 1 - t - lead] == s[s.len() - 1 - t]);
            } else if m > s.len() - lead - t {
                assert(u[m - 1] == s[m - 1 + lead]);
                assert(ws[m - 1 + lead]);
            }
        }
        assert(trimmed(s) =~= s.subrange(lead, s.len() - t));
    }
}

/// Which characters of `s` are white space, in the sense of
/// `unicode_whitespace`.
pub fn whitespace_flags(s: &Vec<char>) -> (r: Vec<bool>)
    ensures
        r@ == ws_flags(s@),
{
    let mut r: Vec<bool> = Vec::new();
    let mut i: usize = 0;
    while i < s.len()
        invariant
            i <= s@.len(),
            r@.len() == i,
            forall|j: int| 0 <= j < i ==> r@[j] == unicode_whitespace(s@[j]),
        decreases s@.len() - i,
    {
        r.push(is_whitespace(s[i]));
        i = i + 1;
    }
    assert(r@ =~= ws_flags(s@));
    r
}

/// `s` without the leading and trailing characters flagged in `ws`.
pub fn trim_flagged(s: &Vec<char>, ws: &Vec<bool>) -> (r: Vec<char>)
    requires
        ws@.len() == s@.len(),
    ensures
        r@ == trimmed_by(s@, ws@),
{
    proof {
        lemma_leading_set(ws@);
        lemma_trailing_set(ws@);
    }
    let n = s.len();
    let mut lo: usize = 0;
    while lo < n && ws[lo]
        invariant
            n == s@.len(),
            ws@.len() == n,
            lo <= n,
            forall|j: int| 0 <= j < lo ==> #[trigger] ws@[j],
        decreases n - lo,
    {
        lo = lo + 1;
    }
    assert(lo == leading_set(ws@)) by {
        if lo < leading_set(ws@) {
            assert(ws@[lo as int]);
        } else if lo > leading_set(ws@) {
            assert(ws@[leading_set(ws@) as int]);
        }
    }
    if lo >= n {
        return Vec::new();
    }
    let mut hi: usize = n;
    while hi > lo && ws[hi - 1]
        invariant
            n == s@.len(),
            ws@.len() == n,
            lo < n,
            lo <= hi <= n,
            !ws@[lo as int],
            forall|j: int| hi <= j < n ==> #[trigger] ws@[j],
        decreases hi - lo,
    {
        hi = hi - 1;
    }
    assert(hi == n - trailing_set(ws@)) by {
        let t = trailing_set(ws@) as int;
        if hi < n - t {
            assert(ws@[n - 1 - t]);
        } else if hi > n - t {
            assert(ws@[hi - 1]);
        }
    }
    subvec(s, lo, hi)
}

/// `s` without leading and trailing white space, as `str::trim` gives it.
pub fn trim(s: &str) -> (r: String)
    ensures
        r@ == trimmed(s@),
{
    let cs = chars_of(s);
    let ws = whitespace_flags(&cs);
    let t = trim_flagged(&cs, &ws);
    proof {
        lemma_trimmed_by_flags(s@);
    }
    string_of(&t)
}

/// Decimal digits stay put under trimming.
pub proof fn lemma_trim_digits(s: Seq<char>)
    requires
        forall|i: int| 0 <= i < s.len() ==> is_digit(#[trigger] s[i]),
    ensures
        trimmed(s) == s,
{
    if s.len() > 0 {
        assert(is_digit(s[0]));
        assert(is_digit(s.last()));
    }
}

/// The decimal spelling of a number is all digits and reads back as it.
pub proof fn lemma_decimal_parses(n: nat)
    ensures
        decimal(n).len() >= 1,
        forall|i: int| 0 <= i < decimal(n).len() ==> is_digit(#[trigger] decimal(n)[i]),
        digits_value(decimal(n)) == n,
    decreases n,
{
    let r = n % 10;
    assert(r < 10);
    assert(digit_char(r) as u32 == r + 48);
    if n >= 10 {
        lemma_decimal_parses(n / 10);
        let d = decimal(n / 10);
        assert(decimal(n).drop_last() =~= d);
        assert(n == (n / 10) * 10 + n % 10) by (nonlinear_arith);
        assert(decimal(n).last() == digit_char(r));
        assert(digits_value(decimal(n)) == digits_value(d) * 10 + ((digit_char(r) as u32) - 48) as nat);
        assert forall|i: int| 0 <= i < decimal(n).len() implies is_digit(#[trigger] decimal(n)[i]) by {
            if i < d.len() {
                assert(decimal(n)[i] == d[i]);
            }
        }
    } else {
        assert(decimal(n).drop_last() =~= Seq::<char>::empty());
        assert(decimal(n).last() == digit_char(r));
        assert(digits_value(decimal(n)) == digits_value(Seq::<char>::empty()) * 10 + ((digit_char(r) as u32) - 48) as nat);
    }
}

} // verus!

verus! {

/// The first position at or after `from` where `needle` occurs in `hay`.
pub open spec fn first_at(hay: Seq<char>, needle: Seq<char>, from: int) -> Option<int>
    decreases hay.len() + 1 - from,
{
    if from < 0 || from + needle.len() > hay.len() {
        None
    } else if occurs_at(hay, needle, from) {
        Some(from)
    } else {
        first_at(hay, needle, from + 1)
    }
}

/// What `first_at` finds: an occurrence with none before it, or none at all.
pub proof fn lemma_first_at(hay: Seq<char>, needle: Seq<char>, from: int)
    requires
        0 <= from,
    ensures
        match first_at(hay, needle, from) {
            Some(i) => from <= i && occurs_at(hay, needle, i)
                && forall|j: int| from <= j < i ==> !occurs_at(hay, needle, j),
            None => forall|j: int| from <= j ==> !occurs_at(hay, needle, j),
        },
    decreases hay.len() + 1 - from,
{
    if from + needle.len() > hay.len() {
    } else if occurs_at(hay, needle, from) {
    } else {
        lemma_first_at(hay, needle, from + 1);
    }
}

/// A search result with these properties is what `first_at` gives.
pub proof fn lemma_first_at_from_search(hay: Seq<char>, needle: Seq<char>, from: int, r: Option<int>)
    requires
        0 <= from,
        match r {
            Some(i) => from <= i && occurs_at(hay, needle, i)
                && forall|j: int| from <= j < i ==> !occurs_at(hay, needle, j),
            None => forall|j: int| from <= j ==> !occurs_at(hay, needle, j),
        },
    ensures
        first_at(hay, needle, from) == r,
{
    lemma_first_at(hay, needle, from);
    match (first_at(hay, needle, from), r) {
        (Some(a), Some(b)) => {
            if a < b {
                assert(!occurs_at(hay, needle, a));
            } else if b < a {
                assert(!occurs_at(hay, needle, b));
            }
        },
        (Some(a), None) => {
            assert(!occurs_at(hay, needle, a));
        },
        (None, Some(b)) => {
            assert(!occurs_at(hay, needle, b));
        },
        (None, None) => {},
    }
}

/// The first position at or after `from` where `needle` occurs in `hay`.
pub fn find_first(hay: &Vec<char>, needle: &Vec<char>, from: usize) -> (r: Option<usize>)
    ensures
        match r {
            Some(i) => first_at(hay@, needle@, from as int) == Some(i as int),
            None => first_at(hay@, needle@, from as int) is None,
        },
{
    let r = find_from(hay, needle, from);
    proof {
        let g: Option<int> = match r {
            Some(i) => Some(i as int),
            None => None,
        };
        lemma_first_at_from_search(hay@, needle@, from as int, g);
    }
    r
}

/// The pieces `str::split` cuts `s` into at each (non-overlapping, leftmost
/// first) occurrence of `pat`.
pub open spec fn split_spec(s: Seq<char>, pat: Seq<char>) -> Seq<Seq<char>>
    decreases s.len(),
{
    if pat.len() == 0 {
        seq![s]
    } else {
        match first_at(s, pat, 0) {
            Some(i) => {
                proof {
                    lemma_first_at(s, pat, 0);
                }
                seq![s.take(i)] + split_spec(s.skip(i + pat.len()), pat)
            },
            None => seq![s],
        }
    }
}

/// Splits `s` at each occurrence of `pat`, as `str::split` does.
pub fn split_chars(s: &Vec<char>, pat: &Vec<char>) -> (r: Vec<Vec<char>>)
    requires
        pat@.len() > 0,
    ensures
        r@.map_values(|v: Vec<char>| v@) == split_spec(s@, pat@),
{
    let mut out: Vec<Vec<char>> = Vec::new();
    let mut start: usize = 0;
    assert(s@.skip(0) =~= s@);
    assert(out@.map_values(|v: Vec<char>| v@) + split_spec(s@.skip(0), pat@) =~= split_spec(s@, pat@));
    assert(s@.len() == s.len());
    loop
        invariant
            pat@.len() > 0,
            s@.len() <= usize::MAX,
            start <= s@.len(),
            out@.map_values(|v: Vec<char>| v@) + split_spec(s@.skip(start as int), pat@) == split_spec(s@, pat@),
        decreases s@.len() - start,
    {
        let ghost rest = s@.skip(start as int);
        match find_first(s, pat, start) {
            Some(i) => {
                proof {
                    lemma_first_at(s@, pat@, start as int);
                    lemma_first_at(rest, pat@, 0);
                    assert forall|j: int| 0 <= j < i - start implies !occurs_at(rest, pat@, j) by {
                        assert(!occurs_at(s@, pat@, j + start));
                        if occurs_at(rest, pat@, j) {
                            assert(rest.subrange(j, j + pat@.len()) =~= s@.subrange(j + start, j + start + pat@.len()));
                        }
                    }
                    assert(rest.subrange(i - start, i - start + pat@.len()) =~= s@.subrange(i as int, i + pat@.len()));
                    lemma_first_at_from_search(rest, pat@, 0, Some(i - start));
                    assert(rest.take(i - start) =~= s@.subrange(start as int, i as int));
                    assert(rest.skip(i - start + pat@.len()) =~= s@.skip(i + pat@.len()));
                }
                let mut piece: Vec<char> = Vec::new();
                let mut k = start;
                while k < i
                    invariant
                        start <= k <= i,
                        i <= s@.len(),
                        piece@ == s@.subrange(start as int, k as int),
                    decreases i - k,
                {
                    piece.push(s[k]);
                    k = k + 1;
                    assert(piece@ =~= s@.subrange(start as int, k as int));
                }
                let ghost before = out@.map_values(|v: Vec<char>| v@);
                out.push(piece);
                proof {
                    assert(out@.map_values(|v: Vec<char>| v@) =~= before.push(s@.subrange(start as int, i as int)));
                    let tail = split_spec(s@.skip(i + pat@.len()), pat@);
                    assert(split_spec(rest, pat@) == seq![rest.take(i - start)] + tail);
                    assert(before.push(s@.subrange(start as int, i as int)) + tail =~= before + (seq![rest.take(i - start)] + tail));
                }
                start = i + pat.len();
            },
            None => {
                proof {
                    lemma_first_at(s@, pat@, start as int);
                    assert forall|j: int| 0 <= j implies !occurs_at(rest, pat@, j) by {
                        if occurs_at(rest, pat@, j) {
                            assert(rest.subrange(j, j + pat@.len()) =~= s@.subrange(j + start, j + start + pat@.len()));
                            assert(occurs_at(s@, pat@, j + start));
                        }
                    }
                    lemma_first_at_from_search(rest, pat@, 0, None);
                }
                let mut piece: Vec<char> = Vec::new();
                let mut k = start;
                while k < s.len()
                    invariant
                        start <= k <= s@.len(),
                        piece@ == s@.subrange(start as int, k as int),
                    decreases s@.len() - k,
                {
                    piece.push(s[k]);
                    k = k + 1;
                    assert(piece@ =~= s@.subrange(start as int, k as int));
                }
                let ghost before = out@.map_values(|v: Vec<char>| v@);
                out.push(piece);
                proof {
                    assert(rest =~= s@.subrange(start as int, s@.len() as int));
                    assert(out@.map_values(|v: Vec<char>| v@) =~= before.push(rest));
                    assert(split_spec(rest, pat@) == seq![rest]);
                    assert(before.push(rest) =~= before + seq![rest]);
                }
                return out;
            },
        }
    }
}

} // verus!

verus! {

/// The characters of `s` from `a` up to `b`.
pub fn subvec(s: &Vec<char>, a: usize, b: usize) -> (r: Vec<char>)
    requires
        a <= b <= s@.len(),
    ensures
        r@ == s@.subrange(a as int, b as int),
{
    let mut r: Vec<char> = Vec::new();
    let mut k = a;
    while k < b
        invariant
            a <= k <= b,
            b <= s@.len(),
            r@ == s@.subrange(a as int, k as int),
        decreases b - k,
    {
        r.push(s[k]);
        k = k + 1;
        assert(r@ =~= s@.subrange(a as int, k as int));
    }
    r
}

/// Appends the characters of `t` to `out`.
pub fn extend_chars(out: &mut Vec<char>, t: &Vec<char>)
    ensures
        final(out)@ == old(out)@ + t@,
{
    let mut k: usize = 0;
    while k < t.len()
        invariant
            k <= t@.len(),
            out@ == old(out)@ + t@.take(k as int),
        decreases t@.len() - k,
    {
        out.push(t[k]);
        k = k + 1;
        assert(out@ =~= old(out)@ + t@.take(k as int));
    }
    assert(t@.take(k as int) =~= t@);
}

/// A string holding the characters of `v`.
pub fn string_of(v: &Vec<char>) -> (r: String)
    ensures
        r@ == v@,
{
    let mut r = String::new();
    let mut k: usize = 0;
    while k < v.len()
        invariant
            k <= v@.len(),
            r@ == v@.take(k as int),
        decreases v@.len() - k,
    {
        push_char(&mut r, v[k]);
        k = k + 1;
        assert(r@ =~= v@.take(k as int));
    }
    assert(v@.take(k as int) =~= v@);
    r
}

/// Whether `needle` occurs in `hay`.
pub fn contains_chars(hay: &Vec<char>, needle: &Vec<char>) -> (r: bool)
    ensures
        r == contains_spec(hay@, needle@),
{
    match find_from(hay, needle, 0) {
        Some(_) => true,
        None => false,
    }
}

/// Whether `s` is empty once trimmed.
pub fn is_blank(s: &Vec<char>) -> (r: bool)
    ensures
        r == (trimmed(s@).len() == 0),
{
    let t = trim(string_of(s).as_str());
    t.as_str().is_empty()
}

} // verus!
