//! Settings of the tracing bridge.

use vstd::prelude::*;
use vstd::string::*;

use crate::error::BackendError;

verus! {

/// Where spans are exported to, and under which name.
#[derive(Debug)]
pub struct OtlpSettings {
    /// OTLP gRPC endpoint.
    pub endpoint: String,
    /// `service.name` resource attribute.
    pub service_name: String,
}

/// Whether a character is white space in the sense of the Unicode property `White_Space`.
pub open spec fn is_white_space(c: char) -> bool {
    ||| '\u{9}' <= c <= '\u{d}'
    ||| c == '\u{20}'
    ||| c == '\u{85}'
    ||| c == '\u{a0}'
    ||| c == '\u{1680}'
    ||| '\u{2000}' <= c <= '\u{200a}'
    ||| c == '\u{2028}'
    ||| c == '\u{2029}'
    ||| c == '\u{202f}'
    ||| c == '\u{205f}'
    ||| c == '\u{3000}'
}

/// Whether a text has no character that is not white space.
pub open spec fn is_blank(text: Seq<char>) -> bool {
    forall|i: int| 0 <= i < text.len() ==> is_white_space(#[trigger] text[i])
}

fn white_space(c: char) -> (r: bool)
    ensures
        r == is_white_space(c),
{
    ('\u{9}' <= c && c <= '\u{d}') || c == '\u{20}' || c == '\u{85}' || c == '\u{a0}' || c
        == '\u{1680}' || ('\u{2000}' <= c && c <= '\u{200a}') || c == '\u{2028}' || c == '\u{2029}'
        || c == '\u{202f}' || c == '\u{205f}' || c == '\u{3000}'
}

fn blank(text: &str) -> (r: bool)
    ensures
        r == is_blank(text@),
{
    let n: usize = text.unicode_len();
    let mut i: usize = 0;
    while i < n
        invariant
            i <= n,
            n == text@.len(),
            forall|j: int| 0 <= j < i ==> is_white_space(#[trigger] text@[j]),
        decreases n - i,
    {
        if !white_space(text.get_char(i)) {
            assert(!is_white_space(text@[i as int]));
            return false;
        }
        i += 1;
    }
    true
}

/// Decide whether tracing is on. A blank endpoint disables it; otherwise spans are exported to
/// the endpoint as given.
pub fn init_otlp_tracing(endpoint: &str, service_name: &str) -> (r: std::result::Result<
    Option<OtlpSettings>,
    BackendError,
>)
    ensures
        match r {
            Ok(Some(settings)) => {
                &&& !is_blank(endpoint@)
                &&& settings.endpoint@ == endpoint@
                &&& settings.service_name@ == service_name@
            },
            Ok(None) => is_blank(endpoint@),
            Err(_) => false,
        },
{
    if blank(endpoint) {
        return Ok(None);
    }
    Ok(
        Some(
            OtlpSettings {
                endpoint: String::from_str(endpoint),
                service_name: String::from_str(service_name),
            },
        ),
    )
}

/// The white space characters by code point: below 128 the five controls from tab on and the space,
/// above it the separators of Unicode, none of which lies beyond the ideographic space.
pub proof fn white_space_by_code_point(c: char, n: int)
    requires
        n == c as int,
    ensures
        n < 128 ==> (is_white_space(c) <==> n == 32 || 9 <= n <= 13),
        128 <= n < 0x1680 ==> (is_white_space(c) <==> n == 0x85 || n == 0xa0),
        0x1680 <= n < 0x2000 ==> (is_white_space(c) <==> n == 0x1680),
        0x2000 <= n <= 0x200a ==> is_white_space(c),
        0x200b <= n < 0x3000 ==> (is_white_space(c) <==> n == 0x2028 || n == 0x2029 || n == 0x202f
            || n == 0x205f),
        n >= 0x3000 ==> (is_white_space(c) <==> n == 0x3000),
{
}

/// A text is blank if and only if its parts are. The empty text is, and one character that is not
/// white space makes a text not blank, wherever it stands.
pub proof fn blank_texts(a: Seq<char>, b: Seq<char>, i: int)
    ensures
        is_blank(Seq::empty()),
        is_blank(a + b) <==> is_blank(a) && is_blank(b),
        0 <= i < a.len() && !is_white_space(a[i]) ==> !is_blank(a),
        !is_blank(a) ==> exists|k: int| 0 <= k < a.len() && !is_white_space(#[trigger] a[k]),
{
    let all = a + b;
    if is_blank(all) {
        assert forall|k: int| 0 <= k < a.len() implies is_white_space(#[trigger] a[k]) by {
            assert(all[k] == a[k]);
        }
        assert forall|k: int| 0 <= k < b.len() implies is_white_space(#[trigger] b[k]) by {
            assert(all[a.len() + k] == b[k]);
        }
    }
}

} // verus!
