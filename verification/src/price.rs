//! Price extraction and parsing: locating the designated price element in a
//! fetched document and parsing its text as a `"<low> - <high>"` range.

use vstd::prelude::*;

use crate::text::{find_sub, match_at, starts_with_at, str_to_chars};

verus! {

/// A price range `(low, high)` in the external currency unit.
#[derive(Clone, Copy, PartialEq, Eq, Structural, Debug)]
pub struct PriceRange {
    pub low: u64,
    pub high: u64,
}

impl PriceRange {
    /// A well-formed range never puts the low bound above the high bound.
    pub open spec fn wf(self) -> bool {
        self.low <= self.high
    }
}

/// Why pricing one item failed: the network retrieval failed, the designated
/// price element is absent, the price text is malformed (no `" - "`
/// separator, or the bounds are out of order), or a bound is not a number
/// within range.
#[derive(Clone, Copy, PartialEq, Eq, Structural, Debug)]
pub enum FetchError {
    Transport,
    PriceNotFound,
    MalformedPrice,
    NonNumericBound,
}

/// What `char::is_whitespace` returns: whether the character has the Unicode
/// whitespace property, a function of the character alone.
pub uninterp spec fn is_unicode_ws(c: char) -> bool;

/// Relies on `char::is_whitespace`: whether the character is Unicode
/// whitespace depends on the character alone.
#[verifier::external_body]
fn is_ws_char(c: char) -> (r: bool)
    ensures
        r == is_unicode_ws(c),
{
    c.is_whitespace()
}

/// `s` without its leading whitespace.
pub open spec fn trim_start_ws(s: Seq<char>) -> Seq<char>
    decreases s.len(),
{
    if s.len() == 0 {
        s
    } else if is_unicode_ws(s[0]) {
        trim_start_ws(s.drop_first())
    } else {
        s
    }
}

/// `s` without its trailing whitespace.
pub open spec fn trim_end_ws(s: Seq<char>) -> Seq<char>
    decreases s.len(),
{
    if s.len() == 0 {
        s
    } else if is_unicode_ws(s.last()) {
        trim_end_ws(s.drop_last())
    } else {
        s
    }
}

/// `s` without leading and trailing whitespace.
pub open spec fn trim_ws(s: Seq<char>) -> Seq<char> {
    trim_end_ws(trim_start_ws(s))
}

/// Removes leading and trailing whitespace.
fn trim_ws_chars(v: &Vec<char>) -> (r: Vec<char>)
    ensures
        r@ == trim_ws(v@),
{
    let mut lo: usize = 0;
    proof {
        assert(v@.skip(0) =~= v@);
    }
    while lo < v.len() && is_ws_char(v[lo])
        invariant
            lo <= v@.len(),
            trim_start_ws(v@) == trim_start_ws(v@.skip(lo as int)),
        decreases v@.len() - lo,
    {
        proof {
            let t = v@.skip(lo as int);
            assert(t[0] == v@[lo as int]);
            assert(t.drop_first() =~= v@.skip(lo + 1));
        }
        lo += 1;
    }
    proof {
        if lo < v@.len() {
            assert(trim_start_ws(v@.skip(lo as int)) == v@.skip(lo as int));
        } else {
            assert(v@.skip(lo as int) =~= Seq::<char>::empty());
        }
        assert(trim_start_ws(v@) == v@.skip(lo as int));
    }
    let mut hi: usize = v.len();
    proof {
        assert(v@.subrange(lo as int, hi as int) =~= v@.skip(lo as int));
    }
    while hi > lo && is_ws_char(v[hi - 1])
        invariant
            lo <= hi <= v@.len(),
            trim_end_ws(v@.skip(lo as int)) == trim_end_ws(v@.subrange(lo as int, hi as int)),
        decreases hi,
    {
        proof {
            let t = v@.subrange(lo as int, hi as int);
            assert(t.last() == v@[hi - 1]);
            assert(t.drop_last() =~= v@.subrange(lo as int, hi - 1));
        }
        hi -= 1;
    }
    proof {
        let t = v@.subrange(lo as int, hi as int);
        if hi > lo {
            assert(t.last() == v@[hi - 1]);
            assert(trim_end_ws(t) == t);
        } else {
            assert(t =~= Seq::<char>::empty());
        }
    }
    let mut out: Vec<char> = Vec::new();
    let mut i: usize = lo;
    while i < hi
        invariant
            lo <= i <= hi <= v@.len(),
            out@ =~= v@.subrange(lo as int, i as int),
        decreases hi - i,
    {
        out.push(v[i]);
        i += 1;
    }
    out
}

/// An ASCII decimal digit.
pub open spec fn is_digit(c: char) -> bool {
    48 <= c as int && c as int <= 57
}

/// The numeric value of an ASCII decimal digit.
pub open spec fn digit_val(c: char) -> int {
    c as int - 48
}

/// Every character of `s` is an ASCII decimal digit.
pub open spec fn all_digits(s: Seq<char>) -> bool {
    forall|i: int| 0 <= i < s.len() ==> is_digit(#[trigger] s[i])
}

/// The value of a digit string, most significant digit first.
pub open spec fn digits_val(s: Seq<char>) -> int
    decreases s.len(),
{
    if s.len() == 0 {
        0
    } else {
        digits_val(s.drop_last()) * 10 + digit_val(s.last())
    }
}

/// `s` without one optional leading plus sign.
pub open spec fn strip_plus(s: Seq<char>) -> Seq<char> {
    if s.len() > 0 && s[0] == '+' {
        s.drop_first()
    } else {
        s
    }
}

/// `s` is the decimal text of a value that fits in a 64-bit unsigned
/// integer: an optional plus sign, then at least one digit.
pub open spec fn valid_u64_text(s: Seq<char>) -> bool {
    let d = strip_plus(s);
    d.len() > 0 && all_digits(d) && digits_val(d) <= u64::MAX
}

/// The value of a valid decimal text.
pub open spec fn u64_text_val(s: Seq<char>) -> int {
    digits_val(strip_plus(s))
}

/// A digit string's value is nonnegative and no prefix exceeds it.
proof fn lemma_digits_val_prefix(s: Seq<char>, i: int)
    requires
        all_digits(s),
        0 <= i <= s.len(),
    ensures
        0 <= digits_val(s.take(i)) <= digits_val(s),
    decreases s.len(),
{
    if s.len() == 0 {
        assert(s.take(i) =~= s);
    } else {
        assert(all_digits(s.drop_last()));
        lemma_digits_val_prefix(s.drop_last(), if i <= s.len() - 1 {
            i
        } else {
            s.len() - 1
        });
        assert(0 <= digits_val(s.drop_last()));
        assert(digits_val(s) >= digits_val(s.drop_last()));
        if i <= s.len() - 1 {
            assert(s.drop_last().take(i) =~= s.take(i));
        } else {
            assert(s.take(i) =~= s);
        }
    }
}

/// Parses the decimal text of a 64-bit unsigned integer: an optional plus
/// sign, then at least one digit, with a value that fits; returns the value
/// exactly when the text is valid.
pub fn parse_u64(v: &Vec<char>) -> (r: Option<u64>)
    ensures
        r is Some <==> valid_u64_text(v@),
        r matches Option::Some(n) ==> n == u64_text_val(v@),
{
    let n = v.len();
    let mut start: usize = 0;
    if n > 0 && v[0] == '+' {
        start = 1;
    }
    let ghost d = strip_plus(v@);
    proof {
        assert(d =~= v@.skip(start as int));
    }
    if start == n {
        proof {
            assert(d.len() == 0);
        }
        return Option::None;
    }
    let mut acc: u64 = 0;
    let mut i: usize = start;
    while i < n
        invariant
            start <= i <= n == v@.len(),
            d == strip_plus(v@),
            d == v@.skip(start as int),
            d.len() > 0,
            acc as int == digits_val(v@.subrange(start as int, i as int)),
            forall|j: int| start <= j < i ==> is_digit(#[trigger] v@[j]),
        decreases n - i,
    {
        let c = v[i];
        proof {
            let pre = v@.subrange(start as int, i as int);
            let pre1 = v@.subrange(start as int, i + 1);
            assert(pre1.drop_last() =~= pre);
            assert(pre1.last() == v@[i as int]);
        }
        let dg: u64 = match c {
            '0' => 0,
            '1' => 1,
            '2' => 2,
            '3' => 3,
            '4' => 4,
            '5' => 5,
            '6' => 6,
            '7' => 7,
            '8' => 8,
            '9' => 9,
            _ => {
                proof {
                    assert(!is_digit(v@[i as int]));
                    assert(d[i - start] == v@[i as int]);
                    assert(!all_digits(d));
                }
                return Option::None;
            },
        };
        proof {
            assert(dg == digit_val(v@[i as int]));
        }
        let wide: u128 = (acc as u128) * 10 + (dg as u128);
        if wide > u64::MAX as u128 {
            proof {
                if valid_u64_text(v@) {
                    assert(all_digits(d));
                    assert forall|j: int| start <= j < i + 1 implies is_digit(
                        #[trigger] v@[j],
                    ) by {
                        assert(d[j - start] == v@[j]);
                    }
                    assert(all_digits(v@.subrange(start as int, i + 1)));
                    lemma_digits_val_prefix(d, i + 1 - start);
                    assert(d.take(i + 1 - start) =~= v@.subrange(start as int, i + 1));
                    assert(false);
                }
            }
            return Option::None;
        }
        acc = wide as u64;
        i += 1;
    }
    proof {
        assert(v@.subrange(start as int, n as int) =~= d);
        assert(all_digits(d));
    }
    Option::Some(acc)
}

/// The `" - "` separator between the two bounds of a price text.
pub open spec fn bound_sep() -> Seq<char> {
    seq![' ', '-', ' ']
}

/// How a trimmed price text is read: split at the first `" - "`; a text with
/// no separator is malformed; a bound that is not a decimal number in range
/// is non-numeric; bounds out of order are malformed; otherwise the range.
pub open spec fn price_parse_trimmed(t: Seq<char>) -> Result<PriceRange, FetchError> {
    match find_sub(t, bound_sep()) {
        Option::None => Result::Err(FetchError::MalformedPrice),
        Option::Some(i) => {
            let a = t.take(i);
            let b = t.skip(i + 3);
            if !valid_u64_text(a) || !valid_u64_text(b) {
                Result::Err(FetchError::NonNumericBound)
            } else if u64_text_val(a) > u64_text_val(b) {
                Result::Err(FetchError::MalformedPrice)
            } else {
                Result::Ok(
                    PriceRange { low: u64_text_val(a) as u64, high: u64_text_val(b) as u64 },
                )
            }
        },
    }
}

/// How a raw price text is read: trim whitespace, then parse.
pub open spec fn price_parse(s: Seq<char>) -> Result<PriceRange, FetchError> {
    price_parse_trimmed(trim_ws(s))
}

/// Copies `v[from..to]`.
fn sub_vec(v: &Vec<char>, from: usize, to: usize) -> (r: Vec<char>)
    requires
        from <= to <= v@.len(),
    ensures
        r@ == v@.subrange(from as int, to as int),
{
    let mut out: Vec<char> = Vec::new();
    let mut i: usize = from;
    while i < to
        invariant
            from <= i <= to <= v@.len(),
            out@ =~= v@.subrange(from as int, i as int),
        decreases to - i,
    {
        out.push(v[i]);
        i += 1;
    }
    out
}

/// Parses a price text as `"<low> - <high>"` after trimming whitespace.
/// Returns the range exactly when the text splits at its first `" - "` into
/// two in-range decimal numbers in order; the error otherwise distinguishes
/// a missing or out-of-order split from a non-numeric bound. A returned
/// range is well formed.
pub fn parse_price_range(text: &str) -> (r: Result<PriceRange, FetchError>)
    ensures
        r == price_parse(text@),
        r matches Result::Ok(pr) ==> pr.wf(),
{
    let raw = str_to_chars(text);
    let t = trim_ws_chars(&raw);
    let mut sep: Vec<char> = Vec::new();
    sep.push(' ');
    sep.push('-');
    sep.push(' ');
    proof {
        assert(sep@ =~= bound_sep());
    }
    let n = t.len();
    let mut i: usize = 0;
    while i < n
        invariant
            i <= n == t@.len(),
            t@ == trim_ws(text@),
            sep@ == bound_sep(),
            forall|j: int| 0 <= j < i ==> !match_at(t@, bound_sep(), j),
        decreases n - i,
    {
        if starts_with_at(&t, &sep, i) {
            proof {
                lemma_find_sub_first_prices(t@);
                assert(match_at(t@, bound_sep(), i as int));
                match find_sub(t@, bound_sep()) {
                    Option::None => {
                        assert(false);
                    },
                    Option::Some(k) => {
                        if k < i {
                            assert(match_at(t@, bound_sep(), k));
                        } else if k > i {
                            assert(!match_at(t@, bound_sep(), i as int));
                        }
                    },
                }
                assert(find_sub(t@, bound_sep()) == Option::Some(i as int));
            }
            let a = sub_vec(&t, 0, i);
            let b = sub_vec(&t, i + 3, n);
            proof {
                assert(a@ =~= t@.take(i as int));
                assert(b@ =~= t@.skip(i + 3));
            }
            let low = parse_u64(&a);
            let high = parse_u64(&b);
            match (low, high) {
                (Option::Some(lo), Option::Some(hi)) => {
                    if lo > hi {
                        return Result::Err(FetchError::MalformedPrice);
                    }
                    return Result::Ok(PriceRange { low: lo, high: hi });
                },
                _ => {
                    return Result::Err(FetchError::NonNumericBound);
                },
            }
        }
        i += 1;
    }
    proof {
        lemma_find_sub_first_prices(t@);
        match find_sub(t@, bound_sep()) {
            Option::None => {
            },
            Option::Some(k) => {
                assert(!match_at(t@, bound_sep(), k));
            },
        }
        assert(find_sub(t@, bound_sep()) is None);
    }
    Result::Err(FetchError::MalformedPrice)
}

/// The first-match characterization of `find_sub`, for the bound separator.
proof fn lemma_find_sub_first_prices(t: Seq<char>)
    ensures
        match find_sub(t, bound_sep()) {
            Option::Some(i) => match_at(t, bound_sep(), i) && forall|j: int|
                0 <= j < i ==> !match_at(t, bound_sep(), j),
            Option::None => forall|j: int| !match_at(t, bound_sep(), j),
        },
{
    crate::text::lemma_find_sub_first(t, bound_sep());
}

/// What scraper computes for a document and selector: the inner HTML of the
/// first element matching the selector, if the selector is valid and some
/// element matches; a function of the two texts alone.
pub uninterp spec fn selected_text_of(html: Seq<char>, selector: Seq<char>) -> Option<Seq<char>>;

/// Relies on scraper's `Selector::parse`, `Html::parse_document`,
/// `Html::select` and `ElementRef::inner_html`: parsing a document and
/// selecting the first matching element's inner HTML depend on the document
/// and selector text alone.
#[verifier::external_body]
fn select_first_inner_html(html: &str, selector: &str) -> (r: Option<String>)
    ensures
        match r {
            Option::Some(t) => selected_text_of(html@, selector@) == Option::Some(t@),
            Option::None => selected_text_of(html@, selector@) is None,
        },
{
    let sel = match scraper::Selector::parse(selector) {
        Ok(s) => s,
        Err(_) => return None,
    };
    let document = scraper::Html::parse_document(html);
    match document.select(&sel).next() {
        Some(element) => Some(element.inner_html()),
        None => None,
    }
}

/// The CSS selector of the designated price element.
pub open spec fn price_selector() -> Seq<char> {
    "#SteamPrice > .pfData"@
}

/// Extracts the price range from a fetched document: locates the designated
/// price element and parses its text. A document without that element yields
/// the not-found error; otherwise the element's text is parsed as a range.
pub fn price_from_document(html: &str) -> (r: Result<PriceRange, FetchError>)
    ensures
        match selected_text_of(html@, price_selector()) {
            Option::None => r == Result::<PriceRange, FetchError>::Err(FetchError::PriceNotFound),
            Option::Some(t) => r == price_parse(t),
        },
        r matches Result::Ok(pr) ==> pr.wf(),
{
    match select_first_inner_html(html, "#SteamPrice > .pfData") {
        Option::None => Result::Err(FetchError::PriceNotFound),
        Option::Some(text) => parse_price_range(text.as_str()),
    }
}

} // verus!
