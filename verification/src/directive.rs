//! The grammar of proxy directives.
//!
//! A directive says where traffic goes: `DIRECT`, or `PROXY` followed by one
//! space and the address of a proxy server, which is four runs of digits
//! separated by dots or a host name, each with an optional `:` and port.
//! White space may stand before the keyword; white space and `;` may follow
//! the directive. The keyword may be written in either case.
//!
//! A text that follows the grammar has a canonical form, which is what the
//! parser returns: `DIRECT`, or `PROXY`, one space and the address as it was
//! written.

use vstd::prelude::*;
use crate::text::{
    all_padding, is_digit, is_label_char, is_padding, lemma_scan_while, scan_while,
    starts_at_ignoring_case, CharClass,
};

verus! {

/// Why a text is no directive.
#[derive(Clone, Copy, Debug, PartialEq, Eq, Structural)]
pub enum ProxyParseError {
    /// The text does not begin with a keyword, or something other than white
    /// space and `;` follows the directive.
    UnexpectedToken,
    /// Nothing that could begin an address follows `PROXY` and its space.
    MissingAddress,
    /// An address begins after `PROXY`, but a dot in it is not followed by a
    /// label.
    InvalidAddress,
    /// A `:` after the address is not followed by a digit.
    InvalidPort,
}

/// The keyword `DIRECT`.
pub open spec fn direct_keyword() -> Seq<char> {
    seq!['D', 'I', 'R', 'E', 'C', 'T']
}

/// The keyword `PROXY`.
pub open spec fn proxy_keyword() -> Seq<char> {
    seq!['P', 'R', 'O', 'X', 'Y']
}

/// What a canonical proxy directive begins with: the keyword `PROXY` and one
/// space.
pub open spec fn proxy_prefix() -> Seq<char> {
    seq!['P', 'R', 'O', 'X', 'Y', ' ']
}

/// Where an optional port that begins at `i` ends: `i` itself if no `:`
/// stands there, the end of the digits after the `:` if there is at least
/// one, and nothing if there is none.
pub open spec fn port_end(s: Seq<char>, i: int) -> Option<int> {
    if 0 <= i < s.len() && s[i] == ':' {
        let p = scan_while(s, i + 1, CharClass::Digit);
        if p > i + 1 {
            Some(p)
        } else {
            None
        }
    } else {
        Some(i)
    }
}

/// Where `groups` runs of digits, separated by single dots, end when the
/// first of them begins at `i`; nothing if one of the runs is empty or a dot
/// is missing.
pub open spec fn digit_groups_end(s: Seq<char>, i: int, groups: nat) -> Option<int>
    decreases groups,
{
    let d = scan_while(s, i, CharClass::Digit);
    if d <= i {
        None
    } else if groups <= 1 {
        Some(d)
    } else if d < s.len() && s[d] == '.' {
        digit_groups_end(s, d + 1, (groups - 1) as nat)
    } else {
        None
    }
}

/// Where a dotted quad with its optional port ends when it begins at `i`, if
/// one stands there.
pub open spec fn quad_end(s: Seq<char>, i: int) -> Option<int> {
    match digit_groups_end(s, i, 4) {
        Some(d) => port_end(s, d),
        None => None,
    }
}

/// Where the labels of a host name end when the first of them has ended at
/// `i`: as long as a dot stands at the end of a label, a label has to follow
/// it.
pub open spec fn more_labels_end(s: Seq<char>, i: int) -> Option<int>
    decreases s.len() - i,
{
    if 0 <= i < s.len() && s[i] == '.' {
        let l = scan_while(s, i + 1, CharClass::Label);
        if i + 1 < l <= s.len() {
            more_labels_end(s, l)
        } else {
            None
        }
    } else {
        Some(i)
    }
}

/// Where a host name ends when it begins at `i`, if one stands there: one
/// label or several, separated by single dots.
pub open spec fn hostname_end(s: Seq<char>, i: int) -> Option<int> {
    let l = scan_while(s, i, CharClass::Label);
    if l <= i {
        None
    } else {
        more_labels_end(s, l)
    }
}

/// Where the address of a proxy server ends when it begins at `i`, or why
/// there is no address.
///
/// A dotted quad is looked for first. Only where none stands at `i` is the
/// text read as a host name with an optional port.
pub open spec fn address_end(s: Seq<char>, i: int) -> Result<int, ProxyParseError> {
    match quad_end(s, i) {
        Some(e) => Ok(e),
        None => match hostname_end(s, i) {
            Some(h) => match port_end(s, h) {
                Some(e) => Ok(e),
                None => Err(ProxyParseError::InvalidPort),
            },
            None => if 0 <= i < s.len() && is_label_char(s[i]) {
                Err(ProxyParseError::InvalidAddress)
            } else {
                Err(ProxyParseError::MissingAddress)
            },
        },
    }
}

/// The canonical form of the directive that `s` holds from `i` on, or why it
/// holds none.
pub open spec fn parse_directive_from(s: Seq<char>, i: int) -> Result<Seq<char>, ProxyParseError> {
    let k = scan_while(s, i, CharClass::Whitespace);
    if starts_at_ignoring_case(s, k, direct_keyword()) {
        if all_padding(s, k + 6) {
            Ok(direct_keyword())
        } else {
            Err(ProxyParseError::UnexpectedToken)
        }
    } else if starts_at_ignoring_case(s, k, proxy_keyword()) && k + 5 < s.len() && s[k + 5]
        == ' ' {
        match address_end(s, k + 6) {
            Ok(e) => if all_padding(s, e) {
                Ok(proxy_prefix() + s.subrange(k + 6, e))
            } else {
                Err(ProxyParseError::UnexpectedToken)
            },
            Err(error) => Err(error),
        }
    } else {
        Err(ProxyParseError::UnexpectedToken)
    }
}

/// The canonical form of the directive that `s` holds, or why it holds none.
pub open spec fn parse_directive(s: Seq<char>) -> Result<Seq<char>, ProxyParseError> {
    parse_directive_from(s, 0)
}

/// What a parser's result says, with the text taken as its characters.
pub open spec fn parsed_view(r: Result<String, ProxyParseError>) -> Result<
    Seq<char>,
    ProxyParseError,
> {
    match r {
        Ok(text) => Ok(text@),
        Err(error) => Err(error),
    }
}

/// The address of a proxy server as it is written: the host, then, if there
/// is a port, `:` and the port.
pub open spec fn render_address(host: Seq<char>, port: Option<Seq<char>>) -> Seq<char> {
    match port {
        Some(digits) => host + seq![':'] + digits,
        None => host,
    }
}

/// The directive that sends traffic through the proxy server at `host` and
/// `port`, as it is written: `PROXY`, a space and the address.
pub open spec fn render_proxy(host: Seq<char>, port: Option<Seq<char>>) -> Seq<char> {
    proxy_prefix() + render_address(host, port)
}

/// A port ends within the text and after its `:`, on a digit.
pub proof fn lemma_port_end(s: Seq<char>, i: int)
    requires
        0 <= i <= s.len(),
    ensures
        port_end(s, i) matches Some(e) ==> i <= e <= s.len() && (e > i ==> is_digit(s[e - 1]) && (e
            < s.len() ==> !is_digit(s[e]))) && (e == i ==> !(i < s.len() && s[i] == ':')),
{
    if i < s.len() && s[i] == ':' {
        lemma_scan_while(s, i + 1, CharClass::Digit);
        let p = scan_while(s, i + 1, CharClass::Digit);
        if p > i + 1 {
            assert(CharClass::Digit.holds(s[p - 1]));
        }
    }
}

/// Runs of digits end within the text, after their start, on a digit.
pub proof fn lemma_digit_groups_end(s: Seq<char>, i: int, groups: nat)
    requires
        0 <= i <= s.len(),
    ensures
        digit_groups_end(s, i, groups) matches Some(e) ==> i < e <= s.len() && is_digit(s[e - 1])
            && (e < s.len() ==> !is_digit(s[e])),
    decreases groups,
{
    lemma_scan_while(s, i, CharClass::Digit);
    let d = scan_while(s, i, CharClass::Digit);
    if d > i {
        assert(CharClass::Digit.holds(s[d - 1]));
        if groups > 1 && d < s.len() && s[d] == '.' {
            lemma_digit_groups_end(s, d + 1, (groups - 1) as nat);
        }
    }
}

/// The labels of a host name end within the text, on a character of a label,
/// and neither a dot nor a character of a label follows them.
pub proof fn lemma_more_labels_end(s: Seq<char>, i: int)
    requires
        0 < i <= s.len(),
        is_label_char(s[i - 1]),
        i < s.len() ==> !is_label_char(s[i]),
    ensures
        more_labels_end(s, i) matches Some(e) ==> i <= e <= s.len() && is_label_char(s[e - 1]) && (e
            < s.len() ==> s[e] != '.' && !is_label_char(s[e])),
    decreases s.len() - i,
{
    if i < s.len() && s[i] == '.' {
        lemma_scan_while(s, i + 1, CharClass::Label);
        let l = scan_while(s, i + 1, CharClass::Label);
        if i + 1 < l {
            assert(CharClass::Label.holds(s[l - 1]));
            lemma_more_labels_end(s, l);
        }
    }
}

/// A host name ends within the text and after its start, on a character of a
/// label, and neither a dot nor a character of a label follows it.
pub proof fn lemma_hostname_end(s: Seq<char>, i: int)
    requires
        0 <= i <= s.len(),
    ensures
        hostname_end(s, i) matches Some(e) ==> i < e <= s.len() && is_label_char(s[e - 1]) && (e
            < s.len() ==> s[e] != '.' && !is_label_char(s[e])),
{
    lemma_scan_while(s, i, CharClass::Label);
    let l = scan_while(s, i, CharClass::Label);
    if l > i {
        assert(CharClass::Label.holds(s[l - 1]));
        lemma_more_labels_end(s, l);
    }
}

/// An address ends within the text and after its start, on a digit or a
/// character of a label: on nothing that could follow a directive.
pub proof fn lemma_address_end(s: Seq<char>, i: int)
    requires
        0 <= i <= s.len(),
    ensures
        address_end(s, i) matches Ok(e) ==> i < e <= s.len() && is_label_char(s[e - 1])
            && !is_padding(s[e - 1]),
{
    lemma_digit_groups_end(s, i, 4);
    match digit_groups_end(s, i, 4) {
        Some(d) => {
            lemma_port_end(s, d);
        },
        None => {},
    }
    lemma_hostname_end(s, i);
    match hostname_end(s, i) {
        Some(h) => {
            lemma_port_end(s, h);
        },
        None => {},
    }
}

} // verus!
