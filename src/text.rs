use vstd::prelude::*;

use crate::error::{AppError, AppResult};

verus! {

/// The characters with the Unicode property White_Space, which is what
/// `char::is_whitespace` tests.
pub open spec fn is_white_space(c: char) -> bool {
    ||| ('\u{9}' <= c && c <= '\u{d}')
    ||| c == ' '
    ||| c == '\u{85}'
    ||| c == '\u{a0}'
    ||| c == '\u{1680}'
    ||| ('\u{2000}' <= c && c <= '\u{200a}')
    ||| c == '\u{2028}'
    ||| c == '\u{2029}'
    ||| c == '\u{202f}'
    ||| c == '\u{205f}'
    ||| c == '\u{3000}'
}

/// `s` without its leading white space.
pub open spec fn trim_start_of(s: Seq<char>) -> Seq<char>
    decreases s.len(),
{
    if s.len() > 0 && is_white_space(s[0]) {
        trim_start_of(s.drop_first())
    } else {
        s
    }
}

/// `s` without its trailing white space.
pub open spec fn trim_end_of(s: Seq<char>) -> Seq<char>
    decreases s.len(),
{
    if s.len() > 0 && is_white_space(s.last()) {
        trim_end_of(s.drop_last())
    } else {
        s
    }
}

/// What `str::trim` leaves of a text: the text without its leading and
/// trailing white space.
pub open spec fn trim_of(s: Seq<char>) -> Seq<char> {
    trim_end_of(trim_start_of(s))
}

/// Relies on `str::trim`, which removes leading and trailing characters
/// with the Unicode property White_Space.
#[verifier::external_body]
pub(crate) fn trim_text(s: &str) -> (r: String)
    ensures
        r@ == trim_of(s@),
{
    s.trim().to_string()
}

/// Longest collection name, in characters, after trimming.
pub const MAX_NAME_LEN: usize = 200;

/// Longest tag, in characters, after trimming.
pub const MAX_TAG_LEN: usize = 100;

/// A trimmed collection name is acceptable when it is neither empty nor too long.
pub open spec fn name_ok(t: Seq<char>) -> bool {
    0 < t.len() <= MAX_NAME_LEN
}

/// A trimmed tag is kept when it is neither empty nor too long.
pub open spec fn tag_ok(t: Seq<char>) -> bool {
    0 < t.len() <= MAX_TAG_LEN
}

pub const NAME_EMPTY: &'static str = "Name cannot be empty";

pub const NAME_TOO_LONG: &'static str = "Name too long (max 200 chars)";

pub const COLOR_ERROR: &'static str = "Invalid color format (expected #RRGGBB)";

/// The message of a refused trimmed name.
pub open spec fn name_error(t: Seq<char>) -> Seq<char> {
    if t.len() == 0 {
        NAME_EMPTY@
    } else {
        NAME_TOO_LONG@
    }
}

pub open spec fn is_hex_digit(c: char) -> bool {
    ('0' <= c && c <= '9') || ('a' <= c && c <= 'f') || ('A' <= c && c <= 'F')
}

/// A color is `#` followed by exactly six hexadecimal digits.
pub open spec fn color_ok(c: Seq<char>) -> bool {
    &&& c.len() == 7
    &&& c[0] == '#'
    &&& forall|i: int| 1 <= i < 7 ==> #[trigger] is_hex_digit(c[i])
}

fn hex_digit(c: char) -> (r: bool)
    ensures
        r == is_hex_digit(c),
{
    ('0' <= c && c <= '9') || ('a' <= c && c <= 'f') || ('A' <= c && c <= 'F')
}

/// Checks a collection name that has already been trimmed.
pub fn validate_trimmed_name(t: String) -> (r: AppResult<String>)
    ensures
        r matches Ok(n) ==> name_ok(t@) && n@ == t@,
        r matches Err(e) ==> !name_ok(t@) && e is ParseError,
        r is Ok <==> name_ok(t@),
        r matches Err(e) ==> e->ParseError_0@ == name_error(t@),
{
    let n = t.as_str().unicode_len();
    if n == 0 {
        return Err(AppError::ParseError(String::from_str(NAME_EMPTY)));
    }
    if n > MAX_NAME_LEN {
        return Err(AppError::ParseError(String::from_str(NAME_TOO_LONG)));
    }
    Ok(t)
}

/// Trims a collection name and checks it: the trimmed name must hold between
/// one and 200 characters.
pub fn validate_name(name: &str) -> (r: AppResult<String>)
    ensures
        r matches Ok(n) ==> name_ok(trim_of(name@)) && n@ == trim_of(name@),
        r matches Err(e) ==> !name_ok(trim_of(name@)) && e is ParseError,
        r is Ok <==> name_ok(trim_of(name@)),
        r matches Err(e) ==> e->ParseError_0@ == name_error(trim_of(name@)),
{
    let t = trim_text(name);
    validate_trimmed_name(t)
}

/// Checks that a color is written `#RRGGBB`.
pub fn validate_color(color: &str) -> (r: AppResult<()>)
    ensures
        r is Ok <==> color_ok(color@),
        r matches Err(e) ==> e is ParseError && e->ParseError_0@ == COLOR_ERROR@,
{
    let n = color.unicode_len();
    let mut valid = n == 7 && color.get_char(0) == '#';
    if valid {
        let mut i: usize = 1;
        while i < 7
            invariant
                n == 7,
                color@.len() == 7,
                color@[0] == '#',
                1 <= i <= 7,
                valid == forall|j: int| 1 <= j < i ==> #[trigger] is_hex_digit(color@[j]),
            decreases 7 - i,
        {
            let c = color.get_char(i);
            valid = valid && hex_digit(c);
            i = i + 1;
        }
    }
    if !valid {
        return Err(AppError::ParseError(String::from_str(COLOR_ERROR)));
    }
    Ok(())
}

/// Checks a tag that has already been trimmed: tags that are empty or too
/// long are dropped rather than refused.
pub fn keep_trimmed_tag(t: &str) -> (r: bool)
    ensures
        r == tag_ok(t@),
{
    let n = t.unicode_len();
    0 < n && n <= MAX_TAG_LEN
}

/// `a` comes before `b` in text order: character by character by code
/// point, a proper prefix first.
pub open spec fn text_before(a: Seq<char>, b: Seq<char>) -> bool
    decreases a.len(),
{
    if b.len() == 0 {
        false
    } else if a.len() == 0 {
        true
    } else if a[0] != b[0] {
        a[0] < b[0]
    } else {
        text_before(a.drop_first(), b.drop_first())
    }
}

pub proof fn lemma_text_irreflexive(a: Seq<char>)
    ensures
        !text_before(a, a),
    decreases a.len(),
{
    if a.len() > 0 {
        lemma_text_irreflexive(a.drop_first());
    }
}

pub proof fn lemma_text_asymmetric(a: Seq<char>, b: Seq<char>)
    ensures
        text_before(a, b) ==> !text_before(b, a),
    decreases a.len(),
{
    if a.len() > 0 && b.len() > 0 {
        lemma_text_asymmetric(a.drop_first(), b.drop_first());
    }
}

pub proof fn lemma_text_transitive(a: Seq<char>, b: Seq<char>, c: Seq<char>)
    ensures
        text_before(a, b) && text_before(b, c) ==> text_before(a, c),
    decreases a.len(),
{
    if a.len() > 0 && b.len() > 0 && c.len() > 0 {
        lemma_text_transitive(a.drop_first(), b.drop_first(), c.drop_first());
    }
}

pub proof fn lemma_text_total(a: Seq<char>, b: Seq<char>)
    ensures
        a != b ==> text_before(a, b) || text_before(b, a),
    decreases a.len(),
{
    if a.len() > 0 && b.len() > 0 && a[0] == b[0] {
        lemma_text_total(a.drop_first(), b.drop_first());
        if a.drop_first() == b.drop_first() {
            assert(a =~= seq![a[0]] + a.drop_first());
            assert(b =~= seq![b[0]] + b.drop_first());
        }
    }
    if a.len() == 0 && b.len() == 0 {
        assert(a =~= b);
    }
}

/// Whether `a` comes before `b` in text order.
pub fn text_lt(a: &str, b: &str) -> (r: bool)
    ensures
        r == text_before(a@, b@),
{
    let n = a.unicode_len();
    let m = b.unicode_len();
    let mut i: usize = 0;
    assert(a@.skip(0) =~= a@ && b@.skip(0) =~= b@);
    while i < n && i < m && a.get_char(i) == b.get_char(i)
        invariant
            n == a@.len(),
            m == b@.len(),
            i <= n,
            i <= m,
            text_before(a@, b@) == text_before(a@.skip(i as int), b@.skip(i as int)),
        decreases n - i,
    {
        proof {
            assert(a@.skip(i as int).drop_first() =~= a@.skip(i + 1));
            assert(b@.skip(i as int).drop_first() =~= b@.skip(i + 1));
        }
        i = i + 1;
    }
    if i == m {
        false
    } else if i == n {
        true
    } else {
        a.get_char(i) < b.get_char(i)
    }
}

} // verus!
