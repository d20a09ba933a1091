//! Text helpers shared by the modules: Unicode trimming, SQL `LIKE`
//! patterns, decimal numbers, zero padding and joining lines.
use vstd::prelude::*;
use vstd::string::*;

verus! {

/// The Unicode `White_Space` property, which `char::is_whitespace` and
/// `str::trim` go by.
pub open spec fn is_white_space(c: char) -> bool {
    let u = c as u32;
    ||| 0x9 <= u <= 0xD
    ||| u == 0x20
    ||| u == 0x85
    ||| u == 0xA0
    ||| u == 0x1680
    ||| 0x2000 <= u <= 0x200A
    ||| u == 0x2028
    ||| u == 0x2029
    ||| u == 0x202F
    ||| u == 0x205F
    ||| u == 0x3000
}

/// Number of white-space characters at the start of `s`.
pub open spec fn leading_ws(s: Seq<char>) -> nat
    decreases s.len(),
{
    if s.len() > 0 && is_white_space(s[0]) {
        1 + leading_ws(s.drop_first())
    } else {
        0
    }
}

/// Number of white-space characters at the end of `s`.
pub open spec fn trailing_ws(s: Seq<char>) -> nat
    decreases s.len(),
{
    if s.len() > 0 && is_white_space(s.last()) {
        1 + trailing_ws(s.drop_last())
    } else {
        0
    }
}

/// `s` without its leading white space.
pub open spec fn trim_start(s: Seq<char>) -> Seq<char> {
    s.skip(leading_ws(s) as int)
}

/// `s` without its trailing white space.
pub open spec fn trim_end(s: Seq<char>) -> Seq<char> {
    s.take(s.len() - trailing_ws(s))
}

/// What `str::trim` gives back: `s` without white space at either end.
pub open spec fn trimmed(s: Seq<char>) -> Seq<char> {
    trim_end(trim_start(s))
}

/// A text is blank when trimming leaves nothing of it.
pub open spec fn is_blank_text(s: Seq<char>) -> bool {
    trimmed(s).len() == 0
}

/// The `LIKE` pattern that matches every text containing `term`.
pub open spec fn contains_pattern(term: Seq<char>) -> Seq<char> {
    seq!['%'] + term + seq!['%']
}

/// The `LIKE` pattern that matches every text starting with `term`.
pub open spec fn prefix_pattern(term: Seq<char>) -> Seq<char> {
    term + seq!['%']
}

/// The character of a decimal digit.
pub open spec fn digit_char(d: nat) -> char {
    if d == 0 {
        '0'
    } else if d == 1 {
        '1'
    } else if d == 2 {
        '2'
    } else if d == 3 {
        '3'
    } else if d == 4 {
        '4'
    } else if d == 5 {
        '5'
    } else if d == 6 {
        '6'
    } else if d == 7 {
        '7'
    } else if d == 8 {
        '8'
    } else {
        '9'
    }
}

/// The decimal digits of `n`, most significant first, without leading zeros.
pub open spec fn decimal_digits(n: nat) -> Seq<char>
    decreases n,
{
    if n < 10 {
        seq![digit_char(n)]
    } else {
        decimal_digits(n / 10).push(digit_char(n % 10))
    }
}

/// How `Display` writes an integer: a minus sign for negative numbers, then
/// the decimal digits of its magnitude.
pub open spec fn int_text(n: int) -> Seq<char> {
    if n < 0 {
        seq!['-'] + decimal_digits((-n) as nat)
    } else {
        decimal_digits(n as nat)
    }
}

/// `digits` with zeros in front up to `width` characters.
pub open spec fn zero_pad(digits: Seq<char>, width: nat) -> Seq<char> {
    if digits.len() < width {
        Seq::new((width - digits.len()) as nat, |i: int| '0') + digits
    } else {
        digits
    }
}

/// The pieces, with `sep` between each two of them.
pub open spec fn joined(parts: Seq<Seq<char>>, sep: Seq<char>) -> Seq<char>
    decreases parts.len(),
{
    if parts.len() == 0 {
        Seq::empty()
    } else if parts.len() == 1 {
        parts[0]
    } else {
        joined(parts.drop_last(), sep) + sep + parts.last()
    }
}

/// The texts of a list of strings.
pub open spec fn texts(parts: Seq<String>) -> Seq<Seq<char>> {
    parts.map_values(|p: String| p@)
}

pub proof fn lemma_leading_ws_bound(s: Seq<char>)
    ensures
        leading_ws(s) <= s.len(),
        forall|j: int| 0 <= j < leading_ws(s) ==> is_white_space(#[trigger] s[j]),
        leading_ws(s) < s.len() ==> !is_white_space(s[leading_ws(s) as int]),
    decreases s.len(),
{
    if s.len() > 0 && is_white_space(s[0]) {
        lemma_leading_ws_bound(s.drop_first());
        assert forall|j: int| 0 <= j < leading_ws(s) implies is_white_space(#[trigger] s[j]) by {
            if j > 0 {
                assert(s[j] == s.drop_first()[j - 1]);
            }
        }
        if leading_ws(s) < s.len() {
            assert(s[leading_ws(s) as int] == s.drop_first()[leading_ws(s.drop_first()) as int]);
        }
    }
}

pub proof fn lemma_trailing_ws_bound(s: Seq<char>)
    ensures
        trailing_ws(s) <= s.len(),
        forall|j: int| s.len() - trailing_ws(s) <= j < s.len() ==> is_white_space(#[trigger] s[j]),
        trailing_ws(s) < s.len() ==> !is_white_space(s[s.len() - trailing_ws(s) - 1]),
    decreases s.len(),
{
    if s.len() > 0 && is_white_space(s.last()) {
        lemma_trailing_ws_bound(s.drop_last());
        assert forall|j: int| s.len() - trailing_ws(s) <= j < s.len() implies is_white_space(
            #[trigger] s[j],
        ) by {
            if j < s.len() - 1 {
                assert(s[j] == s.drop_last()[j]);
            }
        }
        if trailing_ws(s) < s.len() {
            assert(s[s.len() - trailing_ws(s) - 1] == s.drop_last()[s.drop_last().len()
                - trailing_ws(s.drop_last()) - 1]);
        }
    }
}

/// `leading_ws` is the position of the first character that is not white space.
pub proof fn lemma_leading_ws_is(s: Seq<char>, k: int)
    requires
        0 <= k <= s.len(),
        forall|j: int| 0 <= j < k ==> is_white_space(#[trigger] s[j]),
        k < s.len() ==> !is_white_space(s[k]),
    ensures
        leading_ws(s) == k,
    decreases k,
{
    if k > 0 {
        assert(is_white_space(s[0]));
        assert forall|j: int| 0 <= j < k - 1 implies is_white_space(#[trigger] s.drop_first()[j]) by {
            assert(s.drop_first()[j] == s[j + 1]);
        }
        if k - 1 < s.drop_first().len() {
            assert(s.drop_first()[k - 1] == s[k]);
        }
        lemma_leading_ws_is(s.drop_first(), k - 1);
    }
}

/// `trailing_ws` counts the white space after the last character that is not.
pub proof fn lemma_trailing_ws_is(s: Seq<char>, k: int)
    requires
        0 <= k <= s.len(),
        forall|j: int| k <= j < s.len() ==> is_white_space(#[trigger] s[j]),
        k > 0 ==> !is_white_space(s[k - 1]),
    ensures
        trailing_ws(s) == s.len() - k,
    decreases s.len() - k,
{
    if k < s.len() {
        assert(is_white_space(s.last()));
        let t = s.drop_last();
        assert forall|j: int| k <= j < t.len() implies is_white_space(#[trigger] t[j]) by {
            assert(t[j] == s[j]);
        }
        if k > 0 {
            assert(t[k - 1] == s[k - 1]);
        }
        lemma_trailing_ws_is(t, k);
    }
}

/// Trimming a text that starts and ends with other characters leaves it as it is.
pub proof fn lemma_trimmed_of_clean(s: Seq<char>)
    requires
        s.len() > 0 ==> !is_white_space(s[0]) && !is_white_space(s.last()),
    ensures
        trimmed(s) == s,
{
    lemma_leading_ws_is(s, 0);
    assert(trim_start(s) =~= s);
    lemma_trailing_ws_is(s, s.len() as int);
    assert(trim_end(s) =~= s);
}

/// `trimmed(s)` is the slice of `s` between its leading and trailing white space.
pub proof fn lemma_trimmed_shape(s: Seq<char>)
    ensures
        trimmed(s).len() > 0 ==> !is_white_space(trimmed(s)[0]) && !is_white_space(
            trimmed(s).last(),
        ),
        trimmed(s).len() == 0 <==> (forall|j: int| 0 <= j < s.len() ==> is_white_space(
            #[trigger] s[j],
        )),
{
    let t = trim_start(s);
    lemma_leading_ws_bound(s);
    lemma_trailing_ws_bound(t);
    let l = leading_ws(s) as int;
    if trimmed(s).len() > 0 {
        assert(trimmed(s)[0] == t[0]);
        assert(t[0] == s[l]);
        assert(trimmed(s).last() == t[t.len() - trailing_ws(t) - 1]);
        assert(!is_white_space(s[l]));
    } else {
        assert forall|j: int| 0 <= j < s.len() implies is_white_space(#[trigger] s[j]) by {
            if j >= l {
                assert(s[j] == t[j - l]);
            }
        }
    }
    if forall|j: int| 0 <= j < s.len() ==> is_white_space(#[trigger] s[j]) {
        if trimmed(s).len() > 0 {
            assert(t[0] == s[l]);
        }
    }
}

/// Trimming twice gives what trimming once gave.
pub proof fn lemma_trim_idempotent(s: Seq<char>)
    ensures
        trimmed(trimmed(s)) == trimmed(s),
{
    lemma_trimmed_shape(s);
    lemma_trimmed_of_clean(trimmed(s));
}

/// Whether `c` has the Unicode `White_Space` property.
pub fn is_whitespace_char(c: char) -> (b: bool)
    ensures
        b == is_white_space(c),
{
    let u = c as u32;
    (0x9 <= u && u <= 0xD) || u == 0x20 || u == 0x85 || u == 0xA0 || u == 0x1680 || (0x2000 <= u
        && u <= 0x200A) || u == 0x2028 || u == 0x2029 || u == 0x202F || u == 0x205F || u == 0x3000
}

/// Position of the first character of `s` that is not white space, or the
/// length of `s` when there is none.
fn first_non_ws(s: &str) -> (k: usize)
    ensures
        k == leading_ws(s@),
        k <= s@.len(),
{
    let n = s.unicode_len();
    let mut k: usize = 0;
    while k < n
        invariant
            k <= n,
            n == s@.len(),
            forall|j: int| 0 <= j < k ==> is_white_space(#[trigger] s@[j]),
        ensures
            k <= n,
            forall|j: int| 0 <= j < k ==> is_white_space(#[trigger] s@[j]),
            k < n ==> !is_white_space(s@[k as int]),
        decreases n - k,
    {
        let c = s.get_char(k);
        if !is_whitespace_char(c) {
            break;
        }
        k = k + 1;
    }
    proof {
        lemma_leading_ws_is(s@, k as int);
    }
    k
}

/// The text of `s` without white space at either end, as `str::trim` gives it.
pub fn trim(s: &str) -> (r: String)
    ensures
        r@ == trimmed(s@),
{
    let n = s.unicode_len();
    let start = first_non_ws(s);
    let mut end: usize = n;
    while end > start
        invariant
            start <= end <= n,
            n == s@.len(),
            forall|j: int| end <= j < n ==> is_white_space(#[trigger] s@[j]),
        ensures
            start <= end <= n,
            forall|j: int| end <= j < n ==> is_white_space(#[trigger] s@[j]),
            end > start ==> !is_white_space(s@[end - 1]),
        decreases end,
    {
        let c = s.get_char(end - 1);
        if !is_whitespace_char(c) {
            break;
        }
        end = end - 1;
    }
    let piece = s.substring_char(start, end);
    proof {
        let t = trim_start(s@);
        assert forall|j: int| end - start <= j < t.len() implies is_white_space(#[trigger] t[j]) by {
            assert(t[j] == s@[j + start]);
        }
        if end - start > 0 {
            assert(t[end - start - 1] == s@[end - 1]);
        }
        lemma_trailing_ws_is(t, end - start);
        assert(piece@ =~= trimmed(s@));
    }
    String::from_str(piece)
}

/// Whether nothing but white space is in `s`, which is when `s.trim()` is empty.
pub fn is_blank(s: &str) -> (b: bool)
    ensures
        b == is_blank_text(s@),
        b <==> (forall|j: int| 0 <= j < s@.len() ==> is_white_space(#[trigger] s@[j])),
{
    let k = first_non_ws(s);
    let n = s.unicode_len();
    proof {
        lemma_trimmed_shape(s@);
        lemma_leading_ws_bound(s@);
    }
    k == n
}

/// The `LIKE` pattern `%term%`.
pub fn like_contains(term: &str) -> (p: String)
    ensures
        p@ == contains_pattern(term@),
{
    let mut p = String::from_str("%");
    p.append(term);
    p.append("%");
    proof {
        reveal_strlit("%");
        assert(p@ =~= contains_pattern(term@));
    }
    p
}

/// The `LIKE` pattern `term%`.
pub fn like_prefix(term: &str) -> (p: String)
    ensures
        p@ == prefix_pattern(term@),
{
    let mut p = String::from_str(term);
    p.append("%");
    proof {
        reveal_strlit("%");
        assert(p@ =~= prefix_pattern(term@));
    }
    p
}


/// The one-character text of a decimal digit.
fn digit_str(d: u128) -> (s: &'static str)
    requires
        d < 10,
    ensures
        s@ == seq![digit_char(d as nat)],
{
    proof {
        reveal_strlit("0");
        reveal_strlit("1");
        reveal_strlit("2");
        reveal_strlit("3");
        reveal_strlit("4");
        reveal_strlit("5");
        reveal_strlit("6");
        reveal_strlit("7");
        reveal_strlit("8");
        reveal_strlit("9");
    }
    if d == 0 {
        "0"
    } else if d == 1 {
        "1"
    } else if d == 2 {
        "2"
    } else if d == 3 {
        "3"
    } else if d == 4 {
        "4"
    } else if d == 5 {
        "5"
    } else if d == 6 {
        "6"
    } else if d == 7 {
        "7"
    } else if d == 8 {
        "8"
    } else {
        "9"
    }
}

/// Appends the decimal digits of `m` to `out`.
pub fn push_decimal(out: &mut String, m: u128)
    ensures
        final(out)@ == old(out)@ + decimal_digits(m as nat),
    decreases m,
{
    if m >= 10 {
        push_decimal(out, m / 10);
    }
    let d = m % 10;
    out.append(digit_str(d));
    proof {
        if m >= 10 {
            assert(decimal_digits(m as nat) == decimal_digits((m / 10) as nat).push(
                digit_char((m % 10) as nat),
            ));
        }
        assert(final(out)@ =~= old(out)@ + decimal_digits(m as nat));
    }
}

pub proof fn lemma_decimal_digits_len(n: nat)
    ensures
        decimal_digits(n).len() >= 1,
        n < 10 <==> decimal_digits(n).len() == 1,
        n < 100 ==> decimal_digits(n).len() <= 2,
        n < 1000 ==> decimal_digits(n).len() <= 3,
        n < 10000 ==> decimal_digits(n).len() <= 4,
    decreases n,
{
    if n >= 10 {
        lemma_decimal_digits_len(n / 10);
    }
}

/// The decimal text of `n`, as `n.to_string()` writes it.
pub fn i64_text(n: i64) -> (s: String)
    ensures
        s@ == int_text(n as int),
{
    let mut s = String::new();
    if n < 0 {
        s.append("-");
        let m: u128 = (-(n as i128)) as u128;
        push_decimal(&mut s, m);
        proof {
            reveal_strlit("-");
            assert(s@ =~= int_text(n as int));
        }
    } else {
        push_decimal(&mut s, n as u128);
    }
    s
}

/// The decimal text of `n`, as `n.to_string()` writes it.
pub fn i128_text(n: i128) -> (s: String)
    ensures
        s@ == int_text(n as int),
{
    let mut s = String::new();
    if n < 0 {
        s.append("-");
        let m: u128 = (-(n + 1)) as u128 + 1;
        push_decimal(&mut s, m);
        proof {
            reveal_strlit("-");
            assert(s@ =~= int_text(n as int));
        }
    } else {
        push_decimal(&mut s, n as u128);
    }
    s
}

/// Appends the decimal digits of `m` to `out`, with zeros in front up to
/// `width` characters.
pub fn push_zero_padded(out: &mut String, m: u64, width: usize)
    ensures
        final(out)@ == old(out)@ + zero_pad(decimal_digits(m as nat), width as nat),
{
    let mut digits = String::new();
    push_decimal(&mut digits, m as u128);
    let len = digits.as_str().unicode_len();
    let ghost start = out@;
    if len < width {
        let mut i: usize = len;
        while i < width
            invariant
                len <= i <= width,
                out@ == start + Seq::new((i - len) as nat, |k: int| '0'),
            decreases width - i,
        {
            out.append("0");
            proof {
                reveal_strlit("0");
                assert(out@ =~= start + Seq::new((i + 1 - len) as nat, |k: int| '0'));
            }
            i = i + 1;
        }
    }
    out.append(digits.as_str());
    proof {
        assert(digits@ =~= Seq::<char>::empty() + decimal_digits(m as nat));
        assert(final(out)@ =~= old(out)@ + zero_pad(decimal_digits(m as nat), width as nat));
    }
}

/// The strings in order, one per line: what `parts.join("\n")` gives.
pub fn join_lines(parts: &Vec<String>) -> (r: String)
    ensures
        r@ == joined(texts(parts@), seq!['\n']),
{
    let mut r = String::new();
    let mut i: usize = 0;
    proof {
        assert(texts(parts@).take(0) =~= Seq::<Seq<char>>::empty());
    }
    while i < parts.len()
        invariant
            i <= parts.len(),
            r@ == joined(texts(parts@).take(i as int), seq!['\n']),
        decreases parts.len() - i,
    {
        let ghost before = texts(parts@).take(i as int);
        if i > 0 {
            r.append("\n");
        }
        r.append(parts[i].as_str());
        proof {
            reveal_strlit("\n");
            let after = texts(parts@).take(i + 1);
            assert(after.drop_last() =~= before);
            assert(after.last() == parts@[i as int]@);
            if i == 0 {
                assert(r@ =~= joined(after, seq!['\n']));
            } else {
                assert(r@ =~= joined(after, seq!['\n']));
            }
        }
        i = i + 1;
    }
    proof {
        assert(texts(parts@).take(parts.len() as int) =~= texts(parts@));
    }
    r
}


/// Whether two texts are equal.
pub fn text_eq(a: &str, b: &str) -> (r: bool)
    ensures
        r == (a@ == b@),
{
    String::from_str(a) == String::from_str(b)
}

} // verus!
