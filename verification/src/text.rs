//! Text the service shows: numbers in decimal, amounts with thousands
//! separated by spaces, optional fields of the broker's answers, and coupon
//! kinds.
use vstd::prelude::*;
use vstd::string::StrSliceExecFns;

verus! {

/// The character of a decimal digit.
pub open spec fn digit_char(d: int) -> char {
    if d == 0 {
        '0'
    } else if d == 1 {
        '1'
    } else if d == 2 {
        '2'
    } else if d == 3 {
        '3'
    } else if d == 4 {
        '4'
    } else if d == 5 {
        '5'
    } else if d == 6 {
        '6'
    } else if d == 7 {
        '7'
    } else if d == 8 {
        '8'
    } else {
        '9'
    }
}

/// The decimal digits of a natural number, most significant first.
pub open spec fn nat_digits(n: nat) -> Seq<char>
    decreases n,
{
    if n < 10 {
        seq![digit_char(n as int)]
    } else {
        nat_digits(n / 10).push(digit_char((n % 10) as int))
    }
}

/// An integer as `Display` writes it: a minus sign, then the digits.
pub open spec fn int_digits(n: int) -> Seq<char> {
    if n < 0 {
        seq!['-'] + nat_digits((-n) as nat)
    } else {
        nat_digits(n as nat)
    }
}

/// Whether a character is a digit or a minus sign.
pub open spec fn is_number_char(c: char) -> bool {
    c == '-' || c == '0' || c == '1' || c == '2' || c == '3' || c == '4' || c == '5' || c == '6' || c == '7'
        || c == '8' || c == '9'
}

/// The one-character text of a digit.
fn digit_str(d: u64) -> (r: &'static str)
    requires
        d < 10,
    ensures
        r@ == seq![digit_char(d as int)],
{
    if d == 0 {
        proof { reveal_strlit("0"); }
        "0"
    } else if d == 1 {
        proof { reveal_strlit("1"); }
        "1"
    } else if d == 2 {
        proof { reveal_strlit("2"); }
        "2"
    } else if d == 3 {
        proof { reveal_strlit("3"); }
        "3"
    } else if d == 4 {
        proof { reveal_strlit("4"); }
        "4"
    } else if d == 5 {
        proof { reveal_strlit("5"); }
        "5"
    } else if d == 6 {
        proof { reveal_strlit("6"); }
        "6"
    } else if d == 7 {
        proof { reveal_strlit("7"); }
        "7"
    } else if d == 8 {
        proof { reveal_strlit("8"); }
        "8"
    } else {
        proof { reveal_strlit("9"); }
        "9"
    }
}

/// Appends the decimal digits of `n`.
pub fn push_digits(s: &mut String, n: u64)
    ensures
        final(s)@ == old(s)@ + nat_digits(n as nat),
    decreases n,
{
    if n >= 10 {
        push_digits(s, n / 10);
    }
    s.append(digit_str(n % 10));
    assert(final(s)@ =~= old(s)@ + nat_digits(n as nat));
}

/// An unsigned number in decimal.
pub fn u64_to_string(n: u64) -> (r: String)
    ensures
        r@ == nat_digits(n as nat),
{
    let mut s = String::new();
    push_digits(&mut s, n);
    assert(s@ =~= nat_digits(n as nat));
    s
}

/// A signed number in decimal (`i64::to_string`).
pub fn i64_to_string(n: i64) -> (r: String)
    ensures
        r@ == int_digits(n as int),
{
    if n < 0 {
        proof { reveal_strlit("-"); }
        let mut s = String::from_str("-");
        let magnitude: u64 = (-(n as i128)) as u64;
        push_digits(&mut s, magnitude);
        s
    } else {
        u64_to_string(n as u64)
    }
}

/// The digits of a number are digit characters.
pub proof fn lemma_nat_digits_chars(n: nat)
    ensures
        forall|i: int| 0 <= i < nat_digits(n).len() ==> is_number_char(#[trigger] nat_digits(n)[i]),
        nat_digits(n).len() >= 1,
    decreases n,
{
    if n >= 10 {
        lemma_nat_digits_chars(n / 10);
    }
}

/// The text of a number is made of digits and a sign.
pub proof fn lemma_int_digits_chars(n: int)
    ensures
        forall|i: int| 0 <= i < int_digits(n).len() ==> is_number_char(#[trigger] int_digits(n)[i]),
{
    if n < 0 {
        lemma_nat_digits_chars((-n) as nat);
        let t = nat_digits((-n) as nat);
        assert forall|i: int| 0 <= i < int_digits(n).len() implies is_number_char(#[trigger] int_digits(n)[i]) by {
            if i > 0 {
                assert(int_digits(n)[i] == t[i - 1]);
            }
        }
    } else {
        lemma_nat_digits_chars(n as nat);
    }
}

/// The first `k` characters of `s` with a space after each character that
/// is followed by a multiple of three characters (counted from the end of
/// `s`, which has `len` characters).
pub open spec fn grouped_prefix(s: Seq<char>, len: int, k: int) -> Seq<char>
    decreases k,
{
    if k <= 0 {
        Seq::empty()
    } else {
        let rest = grouped_prefix(s, len, k - 1);
        let i = len - k;
        let sep: Seq<char> = if i > 0 && i % 3 == 0 {
            seq![' ']
        } else {
            Seq::empty()
        };
        rest.push(s[k - 1]) + sep
    }
}

/// A text with its characters grouped by three from the end, groups
/// separated by spaces ("1000000" becomes "1 000 000").
pub open spec fn grouped(s: Seq<char>) -> Seq<char> {
    grouped_prefix(s, s.len() as int, s.len() as int)
}

/// The length of a grouped prefix: its characters and a space for each
/// position among them that a multiple of three characters follow.
proof fn lemma_grouped_prefix_len(s: Seq<char>, len: int, k: int)
    requires
        0 <= k <= len,
        len <= s.len(),
    ensures
        k < len ==> grouped_prefix(s, len, k).len() == k + (len - 1) / 3 - (len - k - 1) / 3,
        k == len && len > 0 ==> grouped_prefix(s, len, k).len() == k + (len - 1) / 3,
    decreases k,
{
    if k > 0 {
        lemma_grouped_prefix_len(s, len, k - 1);
        let a = len - k;
        if a >= 1 {
            assert(a / 3 - (a - 1) / 3 == (if a % 3 == 0 { 1int } else { 0int }));
        }
    }
}

/// Grouping by three adds one space for every full group of three digits
/// after the first character: a text of `n > 0` characters becomes one of
/// `n + (n - 1) / 3` ("1000000" has two spaces), and the last character is
/// kept at the end.
pub proof fn law_grouped_length(s: Seq<char>)
    requires
        s.len() > 0,
    ensures
        grouped(s).len() == s.len() + (s.len() - 1) / 3,
        grouped(s).last() == s.last(),
{
    lemma_grouped_prefix_len(s, s.len() as int, s.len() as int);
    let n = s.len() as int;
    let rest = grouped_prefix(s, n, n - 1);
    assert(grouped(s) == rest.push(s[n - 1]) + Seq::<char>::empty());
    assert(rest.push(s[n - 1]) + Seq::<char>::empty() =~= rest.push(s[n - 1]));
}

/// The one-character text of a digit or a minus sign.
fn number_char_str(c: char) -> (r: &'static str)
    requires
        is_number_char(c),
    ensures
        r@ == seq![c],
{
    if c == '-' {
        proof { reveal_strlit("-"); }
        "-"
    } else if c == '0' {
        digit_str(0)
    } else if c == '1' {
        digit_str(1)
    } else if c == '2' {
        digit_str(2)
    } else if c == '3' {
        digit_str(3)
    } else if c == '4' {
        digit_str(4)
    } else if c == '5' {
        digit_str(5)
    } else if c == '6' {
        digit_str(6)
    } else if c == '7' {
        digit_str(7)
    } else if c == '8' {
        digit_str(8)
    } else {
        digit_str(9)
    }
}

/// A number with its digits grouped by three.
pub fn group_thousands(n: i64) -> (r: String)
    ensures
        r@ == grouped(int_digits(n as int)),
{
    let text = i64_to_string(n);
    let ghost t = text@;
    proof {
        lemma_int_digits_chars(n as int);
    }
    let len = text.as_str().unicode_len();
    let mut out = String::new();
    let mut k: usize = 0;
    while k < len
        invariant
            t == text@,
            t == int_digits(n as int),
            len == t.len(),
            k <= len,
            forall|i: int| 0 <= i < t.len() ==> is_number_char(#[trigger] t[i]),
            out@ == grouped_prefix(t, len as int, k as int),
        decreases len - k,
    {
        let c = text.as_str().get_char(k);
        out.append(number_char_str(c));
        let i = len - (k + 1);
        if i > 0 && i % 3 == 0 {
            proof { reveal_strlit(" "); }
            out.append(" ");
        }
        k = k + 1;
        assert(out@ =~= grouped_prefix(t, len as int, k as int));
    }
    out
}

/// Whether a character has Unicode's `White_Space` property (what
/// `char::is_whitespace` tests).
pub open spec fn is_white_space(c: char) -> bool {
    let u = c as int;
    ||| 0x09 <= u <= 0x0D
    ||| u == 0x20
    ||| u == 0x85
    ||| u == 0xA0
    ||| u == 0x1680
    ||| 0x2000 <= u <= 0x200A
    ||| u == 0x2028
    ||| u == 0x2029
    ||| u == 0x202F
    ||| u == 0x205F
    ||| u == 0x3000
}

/// A text without its leading white space.
pub open spec fn trim_start_spec(s: Seq<char>) -> Seq<char>
    decreases s.len(),
{
    if s.len() > 0 && is_white_space(s[0]) {
        trim_start_spec(s.drop_first())
    } else {
        s
    }
}

/// A text without its trailing white space.
pub open spec fn trim_end_spec(s: Seq<char>) -> Seq<char>
    decreases s.len(),
{
    if s.len() > 0 && is_white_space(s.last()) {
        trim_end_spec(s.drop_last())
    } else {
        s
    }
}

/// A text without its leading and trailing white space.
pub open spec fn str_trim(s: Seq<char>) -> Seq<char> {
    trim_end_spec(trim_start_spec(s))
}

/// Whether a character has Unicode's `White_Space` property.
fn is_white_space_char(c: char) -> (r: bool)
    ensures
        r == is_white_space(c),
{
    let u = c as u32;
    (0x09 <= u && u <= 0x0D) || u == 0x20 || u == 0x85 || u == 0xA0 || u == 0x1680 || (0x2000 <= u && u <= 0x200A)
        || u == 0x2028 || u == 0x2029 || u == 0x202F || u == 0x205F || u == 0x3000
}

/// Dropping the white space before the first other character.
proof fn lemma_trim_start(s: Seq<char>, i: int)
    requires
        0 <= i <= s.len(),
        forall|j: int| 0 <= j < i ==> is_white_space(#[trigger] s[j]),
        i == s.len() || !is_white_space(s[i]),
    ensures
        trim_start_spec(s) == s.skip(i),
    decreases i,
{
    if i == 0 {
        assert(s.skip(0) =~= s);
    } else {
        assert(is_white_space(s[0]));
        let t = s.drop_first();
        assert forall|j: int| 0 <= j < i - 1 implies is_white_space(#[trigger] t[j]) by {
            assert(t[j] == s[j + 1]);
        }
        if i < s.len() {
            assert(t[i - 1] == s[i]);
        }
        lemma_trim_start(t, i - 1);
        assert(t.skip(i - 1) =~= s.skip(i));
    }
}

/// Dropping the white space after the last other character.
proof fn lemma_trim_end(s: Seq<char>, e: int)
    requires
        0 <= e <= s.len(),
        forall|j: int| e <= j < s.len() ==> is_white_space(#[trigger] s[j]),
        e == 0 || !is_white_space(s[e - 1]),
    ensures
        trim_end_spec(s) == s.take(e),
    decreases s.len() - e,
{
    if e == s.len() {
        assert(s.take(e) =~= s);
    } else {
        assert(is_white_space(s.last()));
        let t = s.drop_last();
        assert forall|j: int| e <= j < t.len() implies is_white_space(#[trigger] t[j]) by {
            assert(t[j] == s[j]);
        }
        if e > 0 {
            assert(t[e - 1] == s[e - 1]);
        }
        lemma_trim_end(t, e);
        assert(t.take(e) =~= s.take(e));
    }
}

/// `str::trim`: the text without its leading and trailing characters that
/// have Unicode's `White_Space` property.
fn trim(s: &str) -> (r: &str)
    ensures
        r@ == str_trim(s@),
{
    let n = s.unicode_len();
    let mut a: usize = 0;
    while a < n && is_white_space_char(s.get_char(a))
        invariant
            n == s@.len(),
            a <= n,
            forall|j: int| 0 <= j < a ==> is_white_space(#[trigger] s@[j]),
        decreases n - a,
    {
        a = a + 1;
    }
    let mut b: usize = n;
    while b > a && is_white_space_char(s.get_char(b - 1))
        invariant
            n == s@.len(),
            a <= b <= n,
            forall|j: int| b <= j < n ==> is_white_space(#[trigger] s@[j]),
        decreases b - a,
    {
        b = b - 1;
    }
    proof {
        lemma_trim_start(s@, a as int);
        let t = s@.skip(a as int);
        assert forall|j: int| b - a <= j < t.len() implies is_white_space(#[trigger] t[j]) by {
            assert(t[j] == s@[j + a]);
        }
        if b > a {
            assert(t[b - a - 1] == s@[b - 1]);
        }
        lemma_trim_end(t, b - a);
        assert(t.take(b - a) =~= s@.subrange(a as int, b as int));
    }
    s.substring_char(a, b)
}

/// The value of an optional field of the broker's answers: the trimmed text,
/// or `None` when it is empty or says "unknown".
pub open spec fn none_if_empty_spec(s: Seq<char>) -> Option<Seq<char>> {
    let t = str_trim(s);
    if t.len() == 0 || t == "unknown"@ || t == "Unknown"@ {
        None
    } else {
        Some(t)
    }
}

/// An optional field of the broker's answers.
pub fn none_if_empty(s: &str) -> (r: Option<String>)
    ensures
        match r {
            Some(v) => none_if_empty_spec(s@) == Some(v@),
            None => none_if_empty_spec(s@) is None,
        },
{
    let t = trim(s);
    let ts = String::from_str(t);
    if t.is_empty() || ts == String::from_str("unknown") || ts == String::from_str("Unknown") {
        None
    } else {
        Some(ts)
    }
}

/// The name of a coupon kind by its code.
pub open spec fn coupon_type_name_spec(ct: i32) -> Option<Seq<char>> {
    if ct == 1 {
        Some("Постоянный"@)
    } else if ct == 2 {
        Some("Плавающий"@)
    } else if ct == 3 {
        Some("Дисконт"@)
    } else if ct == 4 {
        Some("Ипотечный"@)
    } else if ct == 5 {
        Some("Фиксированный"@)
    } else if ct == 6 {
        Some("Переменный"@)
    } else if ct == 7 {
        Some("Прочее"@)
    } else {
        None
    }
}

/// The name of a coupon kind: constant, floating, discount, mortgage, fixed,
/// variable or other; `None` for an unknown code.
pub fn coupon_type_name(ct: i32) -> (r: Option<&'static str>)
    ensures
        match r {
            Some(v) => coupon_type_name_spec(ct) == Some(v@),
            None => coupon_type_name_spec(ct) is None,
        },
{
    match ct {
        1 => Some("Постоянный"),
        2 => Some("Плавающий"),
        3 => Some("Дисконт"),
        4 => Some("Ипотечный"),
        5 => Some("Фиксированный"),
        6 => Some("Переменный"),
        7 => Some("Прочее"),
        _ => None,
    }
}

} // verus!
