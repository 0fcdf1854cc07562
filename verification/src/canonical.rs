//! The canonical form of a directive: what the grammar's scanners make of a
//! text that was cut out of another, and the laws that follow from it.

use vstd::prelude::*;
use crate::directive::{
    address_end, digit_groups_end, direct_keyword, hostname_end, lemma_address_end,
    more_labels_end, parse_directive, port_end, proxy_keyword, proxy_prefix, quad_end,
    render_address, render_proxy, ProxyParseError,
};
use crate::text::{
    all_padding, is_digit, is_label_char, is_padding, is_white_space, lemma_scan_while,
    lemma_scan_while_is, same_ignoring_ascii_case, scan_while, starts_at_ignoring_case,
    CharClass,
};

verus! {

/// Whether `c` ends an address: it is no character of a label, no dot and no
/// `:`.
pub open spec fn ends_address(c: char) -> bool {
    !is_label_char(c) && c != '.' && c != ':'
}

/// Whether `t` holds, `shift` positions further on, what `s` holds from
/// `from` to `to`, and ends where `s` goes on with a character that ends an
/// address, or ends as well.
pub open spec fn same_part(s: Seq<char>, t: Seq<char>, from: int, to: int, shift: int) -> bool {
    &&& 0 <= from <= to <= s.len()
    &&& 0 <= from + shift
    &&& t.len() == to + shift
    &&& forall|p: int| from <= p < to ==> #[trigger] s[p] == t[p + shift]
    &&& to < s.len() ==> ends_address(s[to])
}

/// An end of a scan, `shift` positions further on.
pub open spec fn shifted(end: Option<int>, shift: int) -> Option<int> {
    match end {
        Some(e) => Some(e + shift),
        None => None,
    }
}

/// A run of digits, or of characters of a label, ends in the part where it
/// ends in the whole.
proof fn lemma_scan_in_part(
    s: Seq<char>,
    t: Seq<char>,
    from: int,
    to: int,
    shift: int,
    p: int,
    class: CharClass,
)
    requires
        same_part(s, t, from, to, shift),
        from <= p <= to,
        class is Digit || class is Label,
    ensures
        scan_while(t, p + shift, class) == scan_while(s, p, class) + shift,
        p <= scan_while(s, p, class) <= to,
    decreases to - p,
{
    if p < to {
        assert(s[p] == t[p + shift]);
        if class.holds(s[p]) {
            lemma_scan_in_part(s, t, from, to, shift, p + 1, class);
        }
    }
}

/// A port ends in the part where it ends in the whole.
proof fn lemma_port_in_part(s: Seq<char>, t: Seq<char>, from: int, to: int, shift: int, p: int)
    requires
        same_part(s, t, from, to, shift),
        from <= p <= to,
    ensures
        port_end(t, p + shift) == shifted(port_end(s, p), shift),
        port_end(s, p) matches Some(e) ==> p <= e <= to,
{
    if p < to {
        assert(s[p] == t[p + shift]);
        if s[p] == ':' {
            lemma_scan_in_part(s, t, from, to, shift, p + 1, CharClass::Digit);
        }
    }
}

/// Runs of digits between dots end in the part where they end in the whole.
proof fn lemma_digit_groups_in_part(
    s: Seq<char>,
    t: Seq<char>,
    from: int,
    to: int,
    shift: int,
    p: int,
    groups: nat,
)
    requires
        same_part(s, t, from, to, shift),
        from <= p <= to,
    ensures
        digit_groups_end(t, p + shift, groups) == shifted(digit_groups_end(s, p, groups), shift),
        digit_groups_end(s, p, groups) matches Some(e) ==> p <= e <= to,
    decreases groups,
{
    lemma_scan_in_part(s, t, from, to, shift, p, CharClass::Digit);
    let d = scan_while(s, p, CharClass::Digit);
    if d > p && groups > 1 {
        if d < to {
            assert(s[d] == t[d + shift]);
            if s[d] == '.' {
                lemma_digit_groups_in_part(s, t, from, to, shift, d + 1, (groups - 1) as nat);
            }
        }
    }
}

/// The labels after the first end in the part where they end in the whole.
proof fn lemma_more_labels_in_part(
    s: Seq<char>,
    t: Seq<char>,
    from: int,
    to: int,
    shift: int,
    p: int,
)
    requires
        same_part(s, t, from, to, shift),
        from <= p <= to,
    ensures
        more_labels_end(t, p + shift) == shifted(more_labels_end(s, p), shift),
        more_labels_end(s, p) matches Some(e) ==> p <= e <= to,
    decreases to - p,
{
    if p < to {
        assert(s[p] == t[p + shift]);
        if s[p] == '.' {
            lemma_scan_in_part(s, t, from, to, shift, p + 1, CharClass::Label);
            let l = scan_while(s, p + 1, CharClass::Label);
            if p + 1 < l {
                lemma_more_labels_in_part(s, t, from, to, shift, l);
            }
        }
    }
}

/// An address ends in the part where it ends in the whole, and is refused in
/// the part for the reason for which it is refused in the whole.
pub proof fn lemma_address_in_part(s: Seq<char>, t: Seq<char>, from: int, to: int, shift: int)
    requires
        same_part(s, t, from, to, shift),
    ensures
        address_end(t, from + shift) == match address_end(s, from) {
            Ok(e) => Ok::<int, ProxyParseError>(e + shift),
            Err(error) => Err::<int, ProxyParseError>(error),
        },
        address_end(s, from) matches Ok(e) ==> from <= e <= to,
{
    lemma_digit_groups_in_part(s, t, from, to, shift, from, 4);
    match digit_groups_end(s, from, 4) {
        Some(d) => {
            lemma_port_in_part(s, t, from, to, shift, d);
        },
        None => {},
    }
    lemma_scan_in_part(s, t, from, to, shift, from, CharClass::Label);
    let l = scan_while(s, from, CharClass::Label);
    if l > from {
        lemma_more_labels_in_part(s, t, from, to, shift, l);
        match more_labels_end(s, l) {
            Some(h) => {
                lemma_port_in_part(s, t, from, to, shift, h);
            },
            None => {},
        }
    }
    if from < to {
        assert(s[from] == t[from + shift]);
    }
}

/// Where an address ends, the text ends or goes on with a character that is
/// no part of an address, provided that white space or `;` follows it.
proof fn lemma_padding_ends_address(c: char)
    requires
        is_padding(c),
    ensures
        ends_address(c),
{
}

/// What the parser makes of a text that begins with `PROXY` and a space: it
/// depends on the address alone, and on what follows it.
pub proof fn lemma_proxy_text(text: Seq<char>)
    requires
        text.len() >= 6,
        text.subrange(0, 6) == proxy_prefix(),
    ensures
        parse_directive(text) == match address_end(text, 6) {
            Ok(e) => if all_padding(text, e) {
                Ok::<Seq<char>, ProxyParseError>(proxy_prefix() + text.subrange(6, e))
            } else {
                Err::<Seq<char>, ProxyParseError>(ProxyParseError::UnexpectedToken)
            },
            Err(error) => Err::<Seq<char>, ProxyParseError>(error),
        },
{
    let prefix = proxy_prefix();
    assert forall|k: int| 0 <= k < 6 implies text[k] == prefix[k] by {
        assert(text.subrange(0, 6)[k] == text[k]);
    }
    assert(text[0] == 'P');
    assert(!is_white_space(text[0]));
    assert(scan_while(text, 0, CharClass::Whitespace) == 0);
    assert(!starts_at_ignoring_case(text, 0, direct_keyword())) by {
        assert(text[0int + 0int] == 'P');
        assert(direct_keyword()[0] == 'D');
        assert(!same_ignoring_ascii_case(text[0int + 0int], direct_keyword()[0]));
    }
    assert(starts_at_ignoring_case(text, 0, proxy_keyword())) by {
        assert forall|k: int| 0 <= k < proxy_keyword().len() implies same_ignoring_ascii_case(
            #[trigger] text[0 + k],
            proxy_keyword()[k],
        ) by {
            assert(text[k] == prefix[k]);
        }
    }
    assert(text[5] == ' ');
}

/// A text that begins with `PROXY`, a space and an address, and ends with
/// the address, is a directive and its own canonical form.
pub proof fn lemma_proxy_with_address(text: Seq<char>)
    requires
        text.len() >= 6,
        text.subrange(0, 6) == proxy_prefix(),
        address_end(text, 6) == Ok::<int, ProxyParseError>(text.len() as int),
    ensures
        parse_directive(text) == Ok::<Seq<char>, ProxyParseError>(text),
{
    lemma_proxy_text(text);
    assert(all_padding(text, text.len() as int));
    assert(proxy_prefix() + text.subrange(6, text.len() as int) =~= text);
}

/// The canonical form of a directive is `DIRECT`, or `PROXY`, a space and
/// an address that is read as a whole.
pub proof fn lemma_canonical_form(raw: Seq<char>, canonical: Seq<char>)
    requires
        parse_directive(raw) == Ok::<Seq<char>, ProxyParseError>(canonical),
    ensures
        canonical == direct_keyword() || (canonical.len() > 6 && canonical.subrange(0, 6)
            == proxy_prefix() && address_end(canonical, 6) == Ok::<int, ProxyParseError>(
            canonical.len() as int,
        )),
{
    lemma_scan_while(raw, 0, CharClass::Whitespace);
    let k = scan_while(raw, 0, CharClass::Whitespace);
    if !starts_at_ignoring_case(raw, k, direct_keyword()) {
        let from = k + 6;
        lemma_address_end(raw, from);
        let to = address_end(raw, from)->Ok_0;
        let part = raw.subrange(from, to);
        assert(canonical == proxy_prefix() + part);
        let shift = 6 - from;
        assert(same_part(raw, canonical, from, to, shift)) by {
            if to < raw.len() {
                assert(is_padding(raw[to]));
                lemma_padding_ends_address(raw[to]);
            }
        }
        lemma_address_in_part(raw, canonical, from, to, shift);
        assert(canonical.subrange(0, 6) =~= proxy_prefix());
    }
}

/// The canonical form of a directive is a directive, and its own canonical
/// form: parsing what the parser returned returns it again.
pub proof fn lemma_canonical_form_is_fixed(raw: Seq<char>, canonical: Seq<char>)
    requires
        parse_directive(raw) == Ok::<Seq<char>, ProxyParseError>(canonical),
    ensures
        parse_directive(canonical) == Ok::<Seq<char>, ProxyParseError>(canonical),
{
    lemma_canonical_form(raw, canonical);
    if canonical == direct_keyword() {
        lemma_direct_round_trip();
    } else {
        lemma_proxy_with_address(canonical);
    }
}

/// Whether `text` is a run of digits: at least one digit and nothing else.
pub open spec fn is_digits(text: Seq<char>) -> bool {
    &&& text.len() > 0
    &&& forall|k: int| 0 <= k < text.len() ==> is_digit(#[trigger] text[k])
}

/// Whether `text` is a host name: labels of letters, digits, `-` and `_`,
/// none of them empty, with one dot between each two.
pub open spec fn is_hostname(text: Seq<char>) -> bool {
    &&& text.len() > 0
    &&& forall|k: int|
        0 <= k < text.len() ==> is_label_char(#[trigger] text[k]) || text[k] == '.'
    &&& text[0] != '.'
    &&& text[text.len() - 1] != '.'
    &&& forall|k: int|
        0 <= k < text.len() - 1 ==> !(#[trigger] text[k] == '.' && text[k + 1] == '.')
}

/// Whether `text` is four runs of digits with the dots between them at the
/// positions `a`, `b` and `c`.
pub open spec fn quad_with_dots_at(text: Seq<char>, a: int, b: int, c: int) -> bool {
    &&& 0 < a && a + 1 < b && b + 1 < c && c + 1 < text.len()
    &&& text[a] == '.' && text[b] == '.' && text[c] == '.'
    &&& forall|k: int|
        0 <= k < text.len() && k != a && k != b && k != c ==> is_digit(#[trigger] text[k])
}

/// Whether `text` is a dotted quad: four runs of digits with a dot between
/// each two.
pub open spec fn is_dotted_quad(text: Seq<char>) -> bool {
    exists|a: int, b: int, c: int| quad_with_dots_at(text, a, b, c)
}

/// Whether `host` begins with a dotted quad and goes on after it with
/// something other than a digit. The parser reads the quad as the whole
/// address, and refuses what follows it.
pub open spec fn begins_with_quad_and_more(host: Seq<char>) -> bool {
    exists|e: int|
        0 < e < host.len() && is_dotted_quad(#[trigger] host.take(e)) && !is_digit(host[e])
}

/// In a text that begins with a host name, which ends with the text or
/// before a `:`, the label that begins at `p` ends within the host name, and
/// the labels after it end where the host name ends.
proof fn lemma_labels_of_hostname(text: Seq<char>, n: int, p: int)
    requires
        0 < n <= text.len(),
        is_hostname(text.take(n)),
        n < text.len() ==> text[n] == ':',
        0 <= p < n,
        p == 0 || text[p - 1] == '.',
    ensures
        p < scan_while(text, p, CharClass::Label) <= n,
        more_labels_end(text, scan_while(text, p, CharClass::Label)) == Some(n),
    decreases n - p,
{
    let host = text.take(n);
    assert(host[p] == text[p]);
    if p > 0 {
        assert(host[p - 1] == text[p - 1]);
        assert(!(host[p - 1] == '.' && host[p - 1 + 1] == '.'));
    }
    assert(is_label_char(text[p]));
    lemma_scan_while(text, p, CharClass::Label);
    let l = scan_while(text, p, CharClass::Label);
    assert(l > p);
    if l > n {
        assert(CharClass::Label.holds(text[n]));
    }
    if l < n {
        assert(host[l] == text[l]);
        assert(text[l] == '.');
        assert(host[n - 1] != '.');
        lemma_labels_of_hostname(text, n, l + 1);
    }
}

/// The host name with which a text begins is read as a whole.
proof fn lemma_hostname_is_read(text: Seq<char>, n: int)
    requires
        0 < n <= text.len(),
        is_hostname(text.take(n)),
        n < text.len() ==> text[n] == ':',
    ensures
        hostname_end(text, 0) == Some(n),
{
    lemma_labels_of_hostname(text, n, 0);
}

/// Where four runs of digits between dots are read at the start of a text,
/// they are a dotted quad, and no digit follows them.
proof fn lemma_digit_groups_are_quad(text: Seq<char>, e: int)
    requires
        digit_groups_end(text, 0, 4) == Some(e),
    ensures
        0 < e <= text.len(),
        is_dotted_quad(text.take(e)),
        e < text.len() ==> !is_digit(text[e]),
        forall|k: int| 0 <= k < e ==> is_digit(#[trigger] text[k]) || text[k] == '.',
{
    let a = scan_while(text, 0, CharClass::Digit);
    lemma_scan_while(text, 0, CharClass::Digit);
    assert(digit_groups_end(text, 0, 4) == digit_groups_end(text, a + 1, 3));
    let b = scan_while(text, a + 1, CharClass::Digit);
    lemma_scan_while(text, a + 1, CharClass::Digit);
    assert(digit_groups_end(text, a + 1, 3) == digit_groups_end(text, b + 1, 2));
    let c = scan_while(text, b + 1, CharClass::Digit);
    lemma_scan_while(text, b + 1, CharClass::Digit);
    assert(digit_groups_end(text, b + 1, 2) == digit_groups_end(text, c + 1, 1));
    let d = scan_while(text, c + 1, CharClass::Digit);
    lemma_scan_while(text, c + 1, CharClass::Digit);
    assert(d == e);
    let quad = text.take(e);
    assert forall|k: int| 0 <= k < e implies is_digit(#[trigger] text[k]) || text[k] == '.' by {
        if k < a {
            assert(CharClass::Digit.holds(text[k]));
        } else if a < k < b {
            assert(CharClass::Digit.holds(text[k]));
        } else if b < k < c {
            assert(CharClass::Digit.holds(text[k]));
        } else if c < k {
            assert(CharClass::Digit.holds(text[k]));
        }
    }
    assert forall|k: int| 0 <= k < quad.len() && k != a && k != b && k != c implies is_digit(
        #[trigger] quad[k],
    ) by {
        assert(quad[k] == text[k]);
        if k < a {
            assert(CharClass::Digit.holds(text[k]));
        } else if a < k < b {
            assert(CharClass::Digit.holds(text[k]));
        } else if b < k < c {
            assert(CharClass::Digit.holds(text[k]));
        } else {
            assert(CharClass::Digit.holds(text[k]));
        }
    }
    assert(quad_with_dots_at(quad, a, b, c));
}

/// The address of a proxy server, as it is written, is read as a whole: the
/// host is a host name, the port a run of digits, and the host does not
/// begin with a dotted quad that something other than a digit follows.
pub proof fn lemma_address_is_read(host: Seq<char>, port: Option<Seq<char>>)
    requires
        is_hostname(host),
        port matches Some(digits) ==> is_digits(digits),
        !begins_with_quad_and_more(host),
    ensures
        address_end(render_address(host, port), 0) == Ok::<int, ProxyParseError>(
            render_address(host, port).len() as int,
        ),
{
    let text = render_address(host, port);
    let n = host.len() as int;
    assert(text.take(n) =~= host);
    lemma_hostname_is_read(text, n);
    assert(port_end(text, n) == Some(text.len() as int)) by {
        match port {
            Some(digits) => {
                assert(text[n] == ':');
                assert forall|k: int| n + 1 <= k < text.len() implies CharClass::Digit.holds(
                    #[trigger] text[k],
                ) by {
                    assert(text[k] == digits[k - n - 1]);
                }
                lemma_scan_while_is(text, n + 1, CharClass::Digit, text.len() as int);
            },
            None => {},
        }
    }
    match digit_groups_end(text, 0, 4) {
        Some(e) => {
            lemma_digit_groups_are_quad(text, e);
            if e > n {
                assert(is_digit(text[n]) || text[n] == '.');
            }
            if e < n {
                assert(host.take(e) =~= text.take(e));
                assert(host[e] == text[e]);
                assert(begins_with_quad_and_more(host));
            }
        },
        None => {},
    }
}

/// Rendering and parsing agree on `DIRECT`: the directive is its own
/// canonical form.
pub proof fn lemma_direct_round_trip()
    ensures
        parse_directive(direct_keyword()) == Ok::<Seq<char>, ProxyParseError>(direct_keyword()),
{
    let text = direct_keyword();
    assert(text[0] == 'D');
    assert(scan_while(text, 0, CharClass::Whitespace) == 0);
    assert(starts_at_ignoring_case(text, 0, direct_keyword()));
    assert(all_padding(text, 6));
}

/// Rendering and parsing agree on proxy directives: `PROXY`, a space, a host
/// name and, if there is one, `:` and a port of digits is a directive and
/// its own canonical form. Left out are the hosts that begin with a dotted
/// quad and go on after it, such as `1.2.3.4.5` or `1.2.3.4-x`: of them the
/// parser reads the quad alone.
pub proof fn lemma_proxy_round_trip(host: Seq<char>, port: Option<Seq<char>>)
    requires
        is_hostname(host),
        port matches Some(digits) ==> is_digits(digits),
        !begins_with_quad_and_more(host),
    ensures
        parse_directive(render_proxy(host, port)) == Ok::<Seq<char>, ProxyParseError>(
            render_proxy(host, port),
        ),
{
    let address = render_address(host, port);
    let text = render_proxy(host, port);
    lemma_address_is_read(host, port);
    assert(same_part(address, text, 0, address.len() as int, 6));
    lemma_address_in_part(address, text, 0, address.len() as int, 6);
    assert(text.subrange(0, 6) =~= proxy_prefix());
    lemma_proxy_with_address(text);
}

/// A dotted quad at the start of a text, with no digit after it, is read as
/// four runs of digits.
proof fn lemma_quad_is_read(text: Seq<char>, e: int)
    requires
        0 < e <= text.len(),
        is_dotted_quad(text.take(e)),
        e < text.len() ==> !is_digit(text[e]),
    ensures
        digit_groups_end(text, 0, 4) == Some(e),
{
    let quad = text.take(e);
    let (a, b, c) = choose|a: int, b: int, c: int| quad_with_dots_at(quad, a, b, c);
    assert(quad[a] == text[a] && quad[b] == text[b] && quad[c] == text[c]);
    assert forall|k: int| 0 <= k < a implies CharClass::Digit.holds(#[trigger] text[k]) by {
        assert(is_digit(quad[k]));
    }
    lemma_scan_while_is(text, 0, CharClass::Digit, a);
    assert forall|k: int| a + 1 <= k < b implies CharClass::Digit.holds(#[trigger] text[k]) by {
        assert(is_digit(quad[k]));
    }
    lemma_scan_while_is(text, a + 1, CharClass::Digit, b);
    assert forall|k: int| b + 1 <= k < c implies CharClass::Digit.holds(#[trigger] text[k]) by {
        assert(is_digit(quad[k]));
    }
    lemma_scan_while_is(text, b + 1, CharClass::Digit, c);
    assert forall|k: int| c + 1 <= k < e implies CharClass::Digit.holds(#[trigger] text[k]) by {
        assert(is_digit(quad[k]));
    }
    lemma_scan_while_is(text, c + 1, CharClass::Digit, e);
    assert(digit_groups_end(text, c + 1, 1) == Some(e));
    assert(digit_groups_end(text, b + 1, 2) == Some(e));
    assert(digit_groups_end(text, a + 1, 3) == Some(e));
}

/// A host that begins with a dotted quad and goes on after it makes no
/// directive: the parser reads the quad as the address and refuses the rest.
pub proof fn lemma_quad_and_more_is_refused(host: Seq<char>)
    requires
        is_hostname(host),
        begins_with_quad_and_more(host),
    ensures
        parse_directive(render_proxy(host, None)) == Err::<Seq<char>, ProxyParseError>(
            ProxyParseError::UnexpectedToken,
        ),
{
    let text = render_proxy(host, None);
    let e = choose|e: int|
        0 < e < host.len() && is_dotted_quad(#[trigger] host.take(e)) && !is_digit(host[e]);
    lemma_quad_is_read(host, e);
    assert(is_label_char(host[e]) || host[e] == '.');
    assert(quad_end(host, 0) == Some(e));
    assert(address_end(host, 0) == Ok::<int, ProxyParseError>(e));
    assert(same_part(host, text, 0, host.len() as int, 6));
    lemma_address_in_part(host, text, 0, host.len() as int, 6);
    assert(text.subrange(0, 6) =~= proxy_prefix());
    lemma_proxy_text(text);
    assert(text[e + 6] == host[e]);
    assert(!is_padding(text[e + 6]));
}

/// Whether `s` holds a host name from `from` to `to`.
pub open spec fn hostname_between(s: Seq<char>, from: int, to: int) -> bool {
    &&& 0 <= from < to <= s.len()
    &&& forall|k: int| from <= k < to ==> is_label_char(#[trigger] s[k]) || s[k] == '.'
    &&& s[from] != '.'
    &&& s[to - 1] != '.'
    &&& forall|k: int| from <= k < to - 1 ==> !(#[trigger] s[k] == '.' && s[k + 1] == '.')
}

/// What holds a host name between two positions holds, cut out, a host name.
proof fn lemma_hostname_cut_out(s: Seq<char>, from: int, to: int)
    requires
        hostname_between(s, from, to),
    ensures
        is_hostname(s.subrange(from, to)),
{
    let host = s.subrange(from, to);
    assert forall|k: int| 0 <= k < host.len() implies is_label_char(#[trigger] host[k]) || host[k]
        == '.' by {
        assert(host[k] == s[from + k]);
    }
    assert forall|k: int| 0 <= k < host.len() - 1 implies !(#[trigger] host[k] == '.' && host[k
        + 1] == '.') by {
        assert(host[k] == s[from + k]);
        assert(host[k + 1] == s[from + k + 1]);
        assert(!(s[from + k] == '.' && s[from + k + 1] == '.'));
    }
}

/// Runs of digits between dots are a host name.
proof fn lemma_digit_groups_are_hostname(s: Seq<char>, i: int, groups: nat)
    requires
        0 <= i <= s.len(),
    ensures
        digit_groups_end(s, i, groups) matches Some(e) ==> hostname_between(s, i, e),
    decreases groups,
{
    lemma_scan_while(s, i, CharClass::Digit);
    let d = scan_while(s, i, CharClass::Digit);
    if d > i {
        assert(CharClass::Digit.holds(s[i]));
        assert(CharClass::Digit.holds(s[d - 1]));
        assert forall|k: int| i <= k < d implies is_digit(#[trigger] s[k]) by {
            assert(CharClass::Digit.holds(s[k]));
        }
        if groups > 1 && d < s.len() && s[d] == '.' {
            lemma_digit_groups_are_hostname(s, d + 1, (groups - 1) as nat);
        }
    }
}

/// The labels that are read after a host name are a host name with it.
proof fn lemma_more_labels_are_hostname(s: Seq<char>, i: int, p: int)
    requires
        hostname_between(s, i, p),
    ensures
        more_labels_end(s, p) matches Some(e) ==> hostname_between(s, i, e),
    decreases s.len() - p,
{
    if p < s.len() && s[p] == '.' {
        lemma_scan_while(s, p + 1, CharClass::Label);
        let l = scan_while(s, p + 1, CharClass::Label);
        if p + 1 < l {
            assert(CharClass::Label.holds(s[p + 1]));
            assert(CharClass::Label.holds(s[l - 1]));
            assert forall|k: int| p + 1 <= k < l implies is_label_char(#[trigger] s[k]) by {
                assert(CharClass::Label.holds(s[k]));
            }
            assert(hostname_between(s, i, l));
            lemma_more_labels_are_hostname(s, i, l);
        }
    }
}

/// An address that is read is a host name, which a dotted quad is too, and
/// then either nothing more, or `:` and a run of digits.
pub proof fn lemma_address_shape(s: Seq<char>, i: int)
    requires
        0 <= i <= s.len(),
    ensures
        address_end(s, i) matches Ok(e) ==> exists|n: int|
            i < n <= e <= s.len() && is_hostname(#[trigger] s.subrange(i, n)) && (n == e || (s[n]
                == ':' && is_digits(s.subrange(n + 1, e)))),
{
    if address_end(s, i) is Ok {
        let e = address_end(s, i)->Ok_0;
        lemma_address_end(s, i);
        let n = match quad_end(s, i) {
            Some(_) => digit_groups_end(s, i, 4)->0,
            None => hostname_end(s, i)->0,
        };
        match quad_end(s, i) {
            Some(_) => {
                lemma_digit_groups_are_hostname(s, i, 4);
            },
            None => {
                lemma_scan_while(s, i, CharClass::Label);
                let l = scan_while(s, i, CharClass::Label);
                assert(CharClass::Label.holds(s[i]));
                assert(CharClass::Label.holds(s[l - 1]));
                assert forall|k: int| i <= k < l implies is_label_char(#[trigger] s[k]) by {
                    assert(CharClass::Label.holds(s[k]));
                }
                assert(hostname_between(s, i, l));
                lemma_more_labels_are_hostname(s, i, l);
            },
        }
        assert(hostname_between(s, i, n));
        lemma_hostname_cut_out(s, i, n);
        assert(port_end(s, n) == Some(e));
        if n != e {
            lemma_scan_while(s, n + 1, CharClass::Digit);
            let digits = s.subrange(n + 1, e);
            assert forall|k: int| 0 <= k < digits.len() implies is_digit(#[trigger] digits[k]) by {
                assert(CharClass::Digit.holds(s[n + 1 + k]));
            }
        }
    }
}

} // verus!
