//! A parser of proxy directives: a cursor over a text, and the steps that
//! move it along the grammar.

use vstd::prelude::*;
use crate::canonical::{
    begins_with_quad_and_more, is_digits, is_hostname, lemma_address_shape,
    lemma_canonical_form, lemma_direct_round_trip, lemma_proxy_round_trip,
};
use crate::directive::{
    address_end, digit_groups_end, direct_keyword, hostname_end, lemma_address_end,
    more_labels_end, parse_directive, parse_directive_from, parsed_view, port_end,
    proxy_keyword, proxy_prefix, quad_end, render_proxy, ProxyParseError,
};
use crate::text::{
    all_padding, chars_of, eq_ignore_ascii_case, find_char, has_at, is_alnum_or_hyphen,
    is_label_char, is_padding, is_padding_char, lemma_all_padding_after_white_space,
    lemma_next_index_of_is, lemma_scan_while, lemma_trim_end_padding,
    same_ignoring_ascii_case, scan_while, starts_at, starts_at_ignoring_case,
    trim_end_padding, CharClass,
};

verus! {

/// A text and a position in it. What stands before the position has been
/// read; the steps below read on from it.
pub struct ProxyParser<'a> {
    input: &'a str,
    chars: Vec<char>,
    pos: usize,
}

impl<'a> ProxyParser<'a> {
    /// The text that is parsed, as its characters.
    pub closed spec fn text(&self) -> Seq<char> {
        self.input@
    }

    /// How many characters of the text have been read.
    pub closed spec fn position(&self) -> int {
        self.pos as int
    }

    /// The position lies within the text.
    pub closed spec fn wf(&self) -> bool {
        &&& self.chars@ == self.input@
        &&& self.pos <= self.chars@.len()
    }

    /// A parser at the start of `input`.
    pub fn new(input: &'a str) -> (parser: Self)
        ensures
            parser.wf(),
            parser.text() == input@,
            parser.position() == 0,
    {
        ProxyParser { input, chars: chars_of(input), pos: 0 }
    }

    /// The character at the position, if the text has not ended there.
    pub fn peek(&self) -> (c: Option<char>)
        requires
            self.wf(),
        ensures
            c == (if self.position() < self.text().len() {
                Some(self.text()[self.position()])
            } else {
                None
            }),
    {
        if self.pos < self.chars.len() {
            Some(self.chars[self.pos])
        } else {
            None
        }
    }

    /// Reads `expected` if it stands at the position, and says whether it did.
    pub fn advance(&mut self, expected: &str) -> (found: bool)
        requires
            old(self).wf(),
        ensures
            final(self).wf(),
            final(self).text() == old(self).text(),
            found == starts_at(old(self).text(), old(self).position(), expected@),
            final(self).position() == if found {
                old(self).position() + expected@.len()
            } else {
                old(self).position()
            },
    {
        let wanted = chars_of(expected);
        if has_at(&self.chars, self.pos, &wanted) {
            assert(self.pos + wanted.len() <= self.chars.len());
            self.pos = self.pos + wanted.len();
            true
        } else {
            false
        }
    }

    /// Reads the characters of `class` that stand at the position, as many as
    /// there are, and says whether there was one.
    pub fn advance_while(&mut self, class: CharClass) -> (advanced: bool)
        requires
            old(self).wf(),
        ensures
            final(self).wf(),
            final(self).text() == old(self).text(),
            final(self).position() == scan_while(old(self).text(), old(self).position(), class),
            advanced == (final(self).position() > old(self).position()),
    {
        let start = self.pos;
        while self.pos < self.chars.len() && class.contains(self.chars[self.pos])
            invariant
                self.wf(),
                self.text() == old(self).text(),
                start == old(self).pos,
                start <= self.pos,
                scan_while(self.text(), start as int, class) == scan_while(
                    self.text(),
                    self.pos as int,
                    class,
                ),
            decreases self.chars@.len() - self.pos,
        {
            self.pos = self.pos + 1;
        }
        self.pos > start
    }

    /// Reads `expected` if it stands at the position in either case of its
    /// ASCII letters, and says whether it did.
    pub fn advance_case_insensitive(&mut self, expected: &str) -> (found: bool)
        requires
            old(self).wf(),
        ensures
            final(self).wf(),
            final(self).text() == old(self).text(),
            found == starts_at_ignoring_case(
                old(self).text(),
                old(self).position(),
                expected@,
            ),
            final(self).position() == if found {
                old(self).position() + expected@.len()
            } else {
                old(self).position()
            },
    {
        let wanted = chars_of(expected);
        let n = wanted.len();
        if n > self.chars.len() - self.pos {
            return false;
        }
        let mut k: usize = 0;
        while k < n
            invariant
                self.wf(),
                self.text() == old(self).text(),
                self.pos == old(self).pos,
                wanted@ == expected@,
                k <= n,
                n == wanted@.len(),
                self.pos + n <= self.chars.len(),
                forall|x: int|
                    0 <= x < k ==> same_ignoring_ascii_case(
                        #[trigger] self.chars@[self.pos + x],
                        wanted@[x],
                    ),
            decreases n - k,
        {
            if !eq_ignore_ascii_case(self.chars[self.pos + k], wanted[k]) {
                return false;
            }
            k += 1;
        }
        self.pos = self.pos + n;
        true
    }

    /// Reads the white space that stands at the position.
    pub fn skip_whitespace(&mut self)
        requires
            old(self).wf(),
        ensures
            final(self).wf(),
            final(self).text() == old(self).text(),
            final(self).position() == scan_while(
                old(self).text(),
                old(self).position(),
                CharClass::Whitespace,
            ),
    {
        self.advance_while(CharClass::Whitespace);
    }

    /// Whether nothing but white space and `;` is left from the position on.
    pub fn only_padding_remains(&self) -> (only: bool)
        requires
            self.wf(),
        ensures
            only == all_padding(self.text(), self.position()),
    {
        let mut k: usize = self.pos;
        while k < self.chars.len()
            invariant
                self.wf(),
                self.pos <= k <= self.chars@.len(),
                forall|x: int| self.pos <= x < k ==> is_padding(#[trigger] self.chars@[x]),
            decreases self.chars@.len() - k,
        {
            if !is_padding_char(self.chars[k]) {
                return false;
            }
            k += 1;
        }
        true
    }

    /// The canonical proxy directive for the address that was read from
    /// `start` to the position, if only white space and `;` is left: `PROXY`,
    /// a space and what stands from `start` to the position, without white
    /// space and `;` at its end.
    pub fn finish_proxy(&self, start: usize) -> (r: Result<String, ProxyParseError>)
        requires
            self.wf(),
            start <= self.position(),
        ensures
            parsed_view(r) == if all_padding(self.text(), self.position()) {
                Ok::<Seq<char>, ProxyParseError>(
                    proxy_prefix() + trim_end_padding(
                        self.text().subrange(start as int, self.position()),
                    ),
                )
            } else {
                Err::<Seq<char>, ProxyParseError>(ProxyParseError::UnexpectedToken)
            },
    {
        if self.only_padding_remains() {
            let ghost read = self.chars@.subrange(start as int, self.pos as int);
            let mut end: usize = self.pos;
            while end > start && is_padding_char(self.chars[end - 1])
                invariant
                    self.wf(),
                    start <= end <= self.pos,
                    read == self.chars@.subrange(start as int, self.pos as int),
                    forall|x: int| end - start <= x < read.len() ==> is_padding(#[trigger] read[x]),
                decreases end,
            {
                end -= 1;
            }
            proof {
                lemma_trim_end_padding(read, end - start);
                assert(read.take(end - start) =~= self.chars@.subrange(start as int, end as int));
                reveal_strlit("PROXY ");
                assert("PROXY "@ =~= proxy_prefix());
            }
            Ok(String::from_str("PROXY ").concat(self.input.substring_char(start, end)))
        } else {
            Err(ProxyParseError::UnexpectedToken)
        }
    }

    /// Reads the address of a proxy server: a dotted quad or a host name, with
    /// its optional port. Where there is none the position stays.
    pub fn parse_server_addr(&mut self) -> (r: Result<(), ProxyParseError>)
        requires
            old(self).wf(),
        ensures
            final(self).wf(),
            final(self).text() == old(self).text(),
            match address_end(old(self).text(), old(self).position()) {
                Ok(end) => r == Ok::<(), ProxyParseError>(()) && final(self).position() == end,
                Err(error) => r == Err::<(), ProxyParseError>(error) && final(self).position()
                    == old(self).position(),
            },
    {
        let start = self.pos;
        if self.advance_digits_dot_quad() {
            return Ok(());
        }
        self.pos = start;
        if self.advance_hostname() {
            if self.read_port() {
                return Ok(());
            }
            self.pos = start;
            return Err(ProxyParseError::InvalidPort);
        }
        match self.peek() {
            Some(c) => {
                if is_alnum_or_hyphen(c) {
                    Err(ProxyParseError::InvalidAddress)
                } else {
                    Err(ProxyParseError::MissingAddress)
                }
            },
            None => Err(ProxyParseError::MissingAddress),
        }
    }

    /// Reads a directive from the position on and gives its canonical form.
    pub fn parse(self) -> (r: Result<String, ProxyParseError>)
        requires
            self.wf(),
        ensures
            parsed_view(r) == parse_directive_from(self.text(), self.position()),
    {
        let mut parser = self;
        let ghost s = parser.text();
        let ghost from = parser.position();
        parser.skip_whitespace();
        let ghost k = parser.position();
        proof {
            lemma_scan_while(s, from, CharClass::Whitespace);
            reveal_strlit("DIRECT");
            reveal_strlit("PROXY");
            reveal_strlit(" ");
            assert("DIRECT"@ =~= direct_keyword());
            assert("PROXY"@ =~= proxy_keyword());
        }
        if parser.advance_case_insensitive("DIRECT") {
            parser.skip_whitespace();
            proof {
                lemma_all_padding_after_white_space(s, k + 6);
            }
            return if parser.only_padding_remains() {
                proof {
                    assert("DIRECT"@ =~= direct_keyword());
                }
                Ok(String::from_str("DIRECT"))
            } else {
                Err(ProxyParseError::UnexpectedToken)
            };
        }
        if parser.advance_case_insensitive("PROXY") {
            let found = parser.advance(" ");
            proof {
                if k + 5 < s.len() {
                    assert(s.subrange(k + 5, k + 6)[0] == s[k + 5]);
                    if s[k + 5] == ' ' {
                        assert(s.subrange(k + 5, k + 6) =~= " "@);
                    }
                }
            }
            if found {
                let start = parser.pos;
                match parser.parse_server_addr() {
                    Ok(()) => {},
                    Err(error) => {
                        return Err(error);
                    },
                }
                let ghost e = parser.position();
                parser.skip_whitespace();
                proof {
                    lemma_address_end(s, k + 6);
                    lemma_scan_while(s, e, CharClass::Whitespace);
                    lemma_all_padding_after_white_space(s, e);
                    let b = parser.position();
                    let read = s.subrange(k + 6, b);
                    assert forall|x: int| e - (k + 6) <= x < read.len() implies is_padding(
                        #[trigger] read[x],
                    ) by {
                        assert(CharClass::Whitespace.holds(s[x + k + 6]));
                    }
                    lemma_trim_end_padding(read, e - (k + 6));
                    assert(read.take(e - (k + 6)) =~= s.subrange(k + 6, e));
                }
                return parser.finish_proxy(start);
            }
        }
        Err(ProxyParseError::UnexpectedToken)
    }

    /// Reads a dotted quad with its optional port: four runs of digits with a
    /// dot between each two, then, if a `:` follows, the `:` and at least one
    /// digit. Where there is none the position stays.
    pub fn advance_digits_dot_quad(&mut self) -> (found: bool)
        requires
            old(self).wf(),
        ensures
            final(self).wf(),
            final(self).text() == old(self).text(),
            match quad_end(old(self).text(), old(self).position()) {
                Some(end) => found && final(self).position() == end,
                None => !found && final(self).position() == old(self).position(),
            },
    {
        let start = self.pos;
        let ghost s = self.text();
        let mut group: usize = 0;
        while group < 4
            invariant
                self.wf(),
                self.text() == s,
                s == old(self).text(),
                start == old(self).pos,
                group <= 4,
                start <= self.pos,
                group < 4 ==> digit_groups_end(s, start as int, 4) == digit_groups_end(
                    s,
                    self.pos as int,
                    (4 - group) as nat,
                ),
                group == 4 ==> digit_groups_end(s, start as int, 4) == Some(self.pos as int),
            decreases 4 - group,
        {
            proof {
                lemma_scan_while(s, self.pos as int, CharClass::Digit);
                reveal_strlit(".");
            }
            let ghost before = self.position();
            if !self.advance_while(CharClass::Digit) {
                self.pos = start;
                return false;
            }
            if group < 3 {
                let ghost d = self.position();
                let dot = self.advance(".");
                proof {
                    if d < s.len() {
                        assert(s.subrange(d, d + 1)[0] == s[d]);
                        if s[d] == '.' {
                            assert(s.subrange(d, d + 1) =~= "."@);
                        }
                    }
                }
                if !dot {
                    self.pos = start;
                    return false;
                }
            }
            group += 1;
        }
        if !self.read_port() {
            self.pos = start;
            return false;
        }
        true
    }

    /// Reads a host name: a label, then, as long as a dot follows, the dot and
    /// another label. Where there is none the position stays.
    pub fn advance_hostname(&mut self) -> (found: bool)
        requires
            old(self).wf(),
        ensures
            final(self).wf(),
            final(self).text() == old(self).text(),
            match hostname_end(old(self).text(), old(self).position()) {
                Some(end) => found && final(self).position() == end,
                None => !found && final(self).position() == old(self).position(),
            },
    {
        let start = self.pos;
        let ghost s = self.text();
        proof {
            lemma_scan_while(s, start as int, CharClass::Label);
        }
        if !self.advance_while(CharClass::Label) {
            return false;
        }
        while self.pos < self.chars.len() && self.chars[self.pos] == '.'
            invariant
                self.wf(),
                self.text() == s,
                s == old(self).text(),
                start == old(self).pos,
                start <= self.pos,
                hostname_end(s, start as int) == more_labels_end(s, self.pos as int),
            decreases self.chars@.len() - self.pos,
        {
            proof {
                lemma_scan_while(s, self.pos + 1, CharClass::Label);
            }
            self.pos = self.pos + 1;
            if !self.advance_while(CharClass::Label) {
                self.pos = start;
                return false;
            }
        }
        true
    }

    /// Reads a port if a `:` stands at the position: the `:` and the digits
    /// after it, of which there has to be one. Where a `:` stands without a
    /// digit after it, the position stays and the answer is `false`.
    pub fn read_port(&mut self) -> (found: bool)
        requires
            old(self).wf(),
        ensures
            final(self).wf(),
            final(self).text() == old(self).text(),
            match port_end(old(self).text(), old(self).position()) {
                Some(end) => found && final(self).position() == end,
                None => !found && final(self).position() == old(self).position(),
            },
    {
        let start = self.pos;
        if self.pos < self.chars.len() && self.chars[self.pos] == ':' {
            proof {
                lemma_scan_while(self.text(), self.pos + 1, CharClass::Digit);
            }
            self.pos = self.pos + 1;
            if !self.advance_while(CharClass::Digit) {
                self.pos = start;
                return false;
            }
        }
        true
    }
}

/// A directive taken apart: where traffic goes.
#[derive(Clone, Debug, PartialEq, Eq)]
pub enum Directive {
    /// Straight to the destination.
    Direct,
    /// Through a proxy server. The address is a dotted quad or a host name;
    /// the port, if there is one, is kept as the digits that were written.
    Proxy { address: String, port: Option<String> },
}

impl Directive {
    /// The port of a proxy directive as its characters.
    pub open spec fn port_text(port: Option<String>) -> Option<Seq<char>> {
        match port {
            Some(digits) => Some(digits@),
            None => None,
        }
    }

    /// The directive as it is written, in canonical form.
    pub open spec fn rendered(&self) -> Seq<char> {
        match self {
            Directive::Direct => direct_keyword(),
            Directive::Proxy { address, port } => render_proxy(
                address@,
                Directive::port_text(*port),
            ),
        }
    }

    /// Whether the directive is one that the grammar knows: the address of a
    /// proxy is a host name, which a dotted quad is too, and its port a run of
    /// digits.
    pub open spec fn wf(&self) -> bool {
        match self {
            Directive::Direct => true,
            Directive::Proxy { address, port } => is_hostname(address@) && (port matches Some(
                digits,
            ) ==> is_digits(digits@)),
        }
    }

    /// The directive as it is written: `DIRECT`, or `PROXY`, a space, the
    /// address and, if there is a port, `:` and the port.
    pub fn render(&self) -> (text: String)
        ensures
            text@ == self.rendered(),
    {
        proof {
            reveal_strlit("DIRECT");
            reveal_strlit("PROXY ");
            reveal_strlit(":");
            assert("DIRECT"@ =~= direct_keyword());
            assert("PROXY "@ =~= proxy_prefix());
            assert(":"@ =~= seq![':']);
        }
        match self {
            Directive::Direct => String::from_str("DIRECT"),
            Directive::Proxy { address, port } => {
                let text = String::from_str("PROXY ").concat(address.as_str());
                match port {
                    Some(digits) => {
                        let text = text.concat(":").concat(digits.as_str());
                        assert(text@ =~= proxy_prefix() + (address@ + seq![':'] + digits@));
                        text
                    },
                    None => text,
                }
            },
        }
    }

    /// The directive that `raw` holds, taken apart. The address of a proxy
    /// ends before the first `:`, and the port is what follows it: written
    /// out again, the directive is the canonical form of `raw`.
    pub fn parse(raw: &str) -> (r: Result<Directive, ProxyParseError>)
        ensures
            match parse_directive(raw@) {
                Ok(canonical) => r matches Ok(directive) && directive.rendered() == canonical
                    && directive.wf(),
                Err(error) => r matches Err(reason) && reason == error,
            },
    {
        let canonical = match ProxyParser::new(raw).parse() {
            Ok(canonical) => canonical,
            Err(error) => {
                return Err(error);
            },
        };
        proof {
            lemma_canonical_form(raw@, canonical@);
            lemma_address_end(canonical@, 6);
        }
        let chars = chars_of(canonical.as_str());
        if chars.len() < 1 || chars[0] == 'D' {
            assert(canonical@ == direct_keyword()) by {
                if canonical@ != direct_keyword() {
                    assert(canonical@.subrange(0, 6)[0] == canonical@[0]);
                }
            }
            return Ok(Directive::Direct);
        }
        assert(canonical@.len() > 6);
        let ghost text = canonical@;
        let n = chars.len();
        let at = find_char(&chars, 6, ':');
        proof {
            lemma_address_shape(text, 6);
            let host_end = choose|host_end: int|
                6 < host_end <= n && is_hostname(#[trigger] text.subrange(6, host_end)) && (
                host_end == n || (text[host_end] == ':' && is_digits(
                    text.subrange(host_end + 1, n as int),
                )));
            let host = text.subrange(6, host_end);
            assert forall|k: int| 6 <= k < host_end implies #[trigger] text[k] != ':' by {
                assert(is_label_char(host[k - 6]) || host[k - 6] == '.');
            }
            lemma_next_index_of_is(text, 6, ':', host_end);
        }
        let address = String::from_str(canonical.as_str().substring_char(6, at));
        if at < n {
            let port = String::from_str(canonical.as_str().substring_char(at + 1, n));
            proof {
                assert(text =~= text.subrange(0, 6) + (address@ + seq![':'] + port@));
            }
            Ok(Directive::Proxy { address, port: Some(port) })
        } else {
            proof {
                assert(text =~= text.subrange(0, 6) + address@);
            }
            Ok(Directive::Proxy { address, port: None })
        }
    }
}

/// A directive that is written out and parsed again is the same directive:
/// what `render` gives is a directive and its own canonical form. Left out
/// are the proxies whose address begins with a dotted quad and goes on after
/// it, of which the parser reads the quad alone.
pub proof fn lemma_render_then_parse(directive: Directive)
    requires
        directive.wf(),
        directive matches Directive::Proxy { address, .. } ==> !begins_with_quad_and_more(
            address@,
        ),
    ensures
        parse_directive(directive.rendered()) == Ok::<Seq<char>, ProxyParseError>(
            directive.rendered(),
        ),
{
    match directive {
        Directive::Direct => {
            lemma_direct_round_trip();
        },
        Directive::Proxy { address, port } => {
            lemma_proxy_round_trip(address@, Directive::port_text(port));
        },
    }
}

} // verus!
