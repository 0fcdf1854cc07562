//! The predicates that a proxy auto-configuration script may call.
//!
//! Each of them is a function of its arguments, and of the local clock where
//! it asks for the day or the hour. The predicates on time come in pairs: one
//! that is told the time, and one that reads the clock and asks the first.

use chrono::{Datelike, Timelike};
use vstd::prelude::*;
use crate::fnmatch::{fnmatch, text_match};
use crate::text::{
    chars_of, find_char, has_at, is_ascii_digit, is_digit, lemma_next_index_of,
    lemma_split_from_len, same_text, split_from, split_on, texts_of,
};

verus! {

/// Whether `host` has no dot in it.
pub fn is_plain_host_name(host: &str) -> (plain: bool)
    ensures
        plain == !host@.contains('.'),
{
    let chars = chars_of(host);
    let at = find_char(&chars, 0, '.');
    proof {
        lemma_next_index_of(chars@, 0, '.');
        if at < chars@.len() {
            assert(chars@[at as int] == '.');
        }
    }
    at == chars.len()
}

/// Whether `host` ends with `domain`. Nothing is asked of where in a label
/// `domain` begins.
pub fn dns_domain_is(host: &str, domain: &str) -> (within: bool)
    ensures
        within == domain@.is_suffix_of(host@),
{
    let text = chars_of(host);
    let part = chars_of(domain);
    if part.len() > text.len() {
        return false;
    }
    has_at(&text, text.len() - part.len(), &part)
}

/// Whether `host` is `fqdn` itself, or `fqdn` is `host`, a dot and whatever
/// follows.
pub fn local_host_or_domain_is(host: &str, fqdn: &str) -> (is: bool)
    ensures
        is == (host@ == fqdn@ || (host@ + seq!['.']).is_prefix_of(fqdn@)),
{
    let name = chars_of(host);
    let full = chars_of(fqdn);
    let n = name.len();
    if !has_at(&full, 0, &name) {
        proof {
            if (host@ + seq!['.']).is_prefix_of(fqdn@) {
                assert(fqdn@.subrange(0, n as int) =~= (host@ + seq!['.']).subrange(0, n as int));
                assert((host@ + seq!['.']).subrange(0, n as int) =~= host@);
            }
            if host@ == fqdn@ {
                assert(fqdn@.subrange(0, n as int) =~= host@);
            }
        }
        return false;
    }
    if full.len() == n {
        assert(fqdn@.subrange(0, n as int) =~= fqdn@);
        return true;
    }
    let dotted = full[n] == '.';
    proof {
        let with_dot = host@ + seq!['.'];
        if dotted {
            assert(with_dot =~= fqdn@.subrange(0, n + 1));
        } else {
            if with_dot.is_prefix_of(fqdn@) {
                assert(fqdn@.subrange(0, n + 1)[n as int] == with_dot[n as int]);
            }
        }
    }
    dotted
}

/// The number that the digits of `digits` write in base ten.
pub open spec fn decimal_value(digits: Seq<char>) -> int
    decreases digits.len(),
{
    if digits.len() == 0 {
        0
    } else {
        decimal_value(digits.drop_last()) * 10 + (digits.last() as u32 - '0' as u32)
    }
}

/// Whether every character of `text` is a digit.
pub open spec fn all_digits(text: Seq<char>) -> bool {
    forall|k: int| 0 <= k < text.len() ==> is_digit(#[trigger] text[k])
}

/// The value of one part of a dotted IPv4 address: one to three digits, with
/// no `0` in front of another digit, that write a number up to 255.
pub open spec fn octet_value(text: Seq<char>) -> Option<int> {
    if 1 <= text.len() <= 3 && all_digits(text) && (text.len() > 1 ==> text[0] != '0')
        && decimal_value(text) <= 255 {
        Some(decimal_value(text))
    } else {
        None
    }
}

/// The IPv4 address that `text` writes: four parts between three dots, the
/// first part in the highest byte.
pub open spec fn ipv4_value(text: Seq<char>) -> Option<u32> {
    let parts = split_on(text, '.');
    if parts.len() == 4 {
        match (
            octet_value(parts[0]),
            octet_value(parts[1]),
            octet_value(parts[2]),
            octet_value(parts[3]),
        ) {
            (Some(a), Some(b), Some(c), Some(d)) => Some(
                (((a * 256 + b) * 256 + c) * 256 + d) as u32,
            ),
            _ => None,
        }
    } else {
        None
    }
}

/// Whether an address lies in a network: whether `ip` and `pattern` agree in
/// the bits that `mask` selects.
pub open spec fn in_net(ip: u32, pattern: u32, mask: u32) -> bool {
    (ip & mask) == (pattern & mask)
}

/// The part of an IPv4 address that stands in `text` from `start` to `end`.
fn parse_octet(text: &Vec<char>, start: usize, end: usize) -> (octet: Option<u32>)
    requires
        start <= end <= text@.len(),
    ensures
        octet_value(text@.subrange(start as int, end as int)) == match octet {
            Some(value) => Some(value as int),
            None => None,
        },
        octet matches Some(value) ==> value <= 255,
{
    let ghost part = text@.subrange(start as int, end as int);
    let n = end - start;
    if n < 1 || n > 3 {
        return None;
    }
    if n > 1 && text[start] == '0' {
        assert(part[0] == '0');
        return None;
    }
    let mut value: u32 = 0;
    let mut k: usize = 0;
    while k < n
        invariant
            k <= n,
            n == end - start,
            n <= 3,
            end <= text@.len(),
            part == text@.subrange(start as int, end as int),
            value == decimal_value(part.take(k as int)),
            value <= 999,
            k == 0 ==> value == 0,
            k == 1 ==> value <= 9,
            k == 2 ==> value <= 99,
            forall|x: int| 0 <= x < k ==> is_digit(#[trigger] part[x]),
        decreases n - k,
    {
        let c = text[start + k];
        assert(c == part[k as int]);
        if !is_ascii_digit(c) {
            return None;
        }
        proof {
            assert(part.take(k + 1).drop_last() =~= part.take(k as int));
            assert(part.take(k + 1).last() == c);
        }
        value = value * 10 + (c as u32 - '0' as u32);
        k += 1;
    }
    assert(part.take(n as int) =~= part);
    if value > 255 {
        return None;
    }
    Some(value)
}

/// The IPv4 address that `text` writes in dotted decimal form, if it writes
/// one: four numbers up to 255 between three dots, none of them with a `0`
/// in front of another digit, and nothing else.
pub fn parse_ipv4(text: &str) -> (address: Option<u32>)
    ensures
        address == ipv4_value(text@),
{
    let chars = chars_of(text);
    let ghost s = chars@;
    let ghost parts = split_on(s, '.');
    let n = chars.len();

    let e0 = find_char(&chars, 0, '.');
    proof {
        lemma_split_from_len(s, 0, '.');
    }
    let a = match parse_octet(&chars, 0, e0) {
        Some(a) => a,
        None => {
            return None;
        },
    };
    if e0 >= n {
        return None;
    }
    let e1 = find_char(&chars, e0 + 1, '.');
    proof {
        lemma_split_from_len(s, e0 + 1, '.');
        assert(parts =~= seq![s.subrange(0, e0 as int)] + split_from(s, e0 + 1, '.'));
        assert(parts[1] == split_from(s, e0 + 1, '.')[0]);
    }
    let b = match parse_octet(&chars, e0 + 1, e1) {
        Some(b) => b,
        None => {
            return None;
        },
    };
    if e1 >= n {
        return None;
    }
    let e2 = find_char(&chars, e1 + 1, '.');
    proof {
        lemma_split_from_len(s, e1 + 1, '.');
        assert(split_from(s, e0 + 1, '.') =~= seq![s.subrange(e0 + 1, e1 as int)] + split_from(
            s,
            e1 + 1,
            '.',
        ));
        assert(parts[2] == split_from(s, e1 + 1, '.')[0]);
    }
    let c = match parse_octet(&chars, e1 + 1, e2) {
        Some(c) => c,
        None => {
            return None;
        },
    };
    if e2 >= n {
        return None;
    }
    let e3 = find_char(&chars, e2 + 1, '.');
    proof {
        lemma_split_from_len(s, e2 + 1, '.');
        assert(split_from(s, e1 + 1, '.') =~= seq![s.subrange(e1 + 1, e2 as int)] + split_from(
            s,
            e2 + 1,
            '.',
        ));
        assert(parts[3] == split_from(s, e2 + 1, '.')[0]);
        assert(parts.len() == 3 + split_from(s, e2 + 1, '.').len());
    }
    let d = match parse_octet(&chars, e2 + 1, e3) {
        Some(d) => d,
        None => {
            return None;
        },
    };
    if e3 < n {
        return None;
    }
    Some(((a * 256 + b) * 256 + c) * 256 + d)
}

/// What `isInNet` answers for three texts: whether all three write an IPv4
/// address and the first lies in the network that the other two give.
pub open spec fn in_net_text(ip: Seq<char>, pattern: Seq<char>, mask: Seq<char>) -> bool {
    match (ipv4_value(ip), ipv4_value(pattern), ipv4_value(mask)) {
        (Some(address), Some(net), Some(bits)) => in_net(address, net, bits),
        _ => false,
    }
}

/// A text that writes no IPv4 address, in any of the three places, lies in no
/// network and gives none.
pub proof fn lemma_malformed_address_is_outside(
    ip: Seq<char>,
    pattern: Seq<char>,
    mask: Seq<char>,
)
    requires
        ipv4_value(ip) is None || ipv4_value(pattern) is None || ipv4_value(mask) is None,
    ensures
        !in_net_text(ip, pattern, mask),
{
}

/// Whether the address `ip` lies in the network that `pattern` and `mask`
/// give. All three are IPv4 addresses in dotted decimal form; where one of
/// them is not, the answer is `false`.
pub fn is_in_net(ip: &str, pattern: &str, mask: &str) -> (within: bool)
    ensures
        within == in_net_text(ip@, pattern@, mask@),
{
    let address = parse_ipv4(ip);
    let net = parse_ipv4(pattern);
    let bits = parse_ipv4(mask);
    match (address, net, bits) {
        (Some(address), Some(net), Some(bits)) => (address & bits) == (net & bits),
        _ => false,
    }
}

/// Whether `input` as a whole matches the wildcard `pattern`.
pub fn sh_exp_match(input: &str, pattern: &str) -> (matched: bool)
    ensures
        matched == text_match(pattern@, input@),
{
    fnmatch(pattern, input)
}

/// The address that a script is told for a name: the one that the lookup
/// gave, or no text at all where it gave none.
pub fn dns_resolve_text(lookup: Option<String>) -> (text: String)
    ensures
        text@ == match lookup {
            Some(address) => address@,
            None => Seq::<char>::empty(),
        },
{
    match lookup {
        Some(address) => address,
        None => String::new(),
    }
}

/// The address of the loopback interface, `127.0.0.1`.
pub open spec fn loopback() -> Seq<char> {
    seq!['1', '2', '7', '.', '0', '.', '0', '.', '1']
}

/// The address that a script is told for this machine: the one that the probe
/// found, or that of the loopback interface where it found none.
pub fn my_ip_address_text(probe: Option<String>) -> (text: String)
    ensures
        text@ == match probe {
            Some(address) => address@,
            None => loopback(),
        },
{
    match probe {
        Some(address) => address,
        None => {
            proof {
                reveal_strlit("127.0.0.1");
                assert("127.0.0.1"@ =~= loopback());
            }
            String::from_str("127.0.0.1")
        },
    }
}

/// Whether `value` lies between `start` and `end`, both included. Where
/// `start` is greater than `end` the range runs from `start` upwards and from
/// `end` downwards: over midnight, if the values are hours.
pub open spec fn in_range_or_around(start: u32, end: u32, value: u32) -> bool {
    if start <= end {
        start <= value <= end
    } else {
        value >= start || value <= end
    }
}

/// What `timeRange` answers at the hour `hour`: with one argument, whether it
/// is that hour; with two, whether the hour lies between them, over midnight
/// if the first is the greater; with none or more than two, `false`.
pub open spec fn time_range_at(args: Seq<u32>, hour: u32) -> bool {
    if args.len() == 1 {
        hour == args[0]
    } else if args.len() == 2 {
        in_range_or_around(args[0], args[1], hour)
    } else {
        false
    }
}

/// A range of hours whose first hour is the later one runs over midnight: it
/// holds the hours from the first on and those up to the second.
pub proof fn lemma_time_range_around_midnight(start: u32, end: u32, hour: u32)
    requires
        start > end,
    ensures
        time_range_at(seq![start, end], hour) <==> (hour >= start || hour <= end),
{
}

/// Whether the hour `hour` is the one that `args` names, or lies in the range
/// that `args` gives.
pub fn time_range(args: &Vec<u32>, hour: u32) -> (within: bool)
    ensures
        within == time_range_at(args@, hour),
{
    if args.len() == 1 {
        hour == args[0]
    } else if args.len() == 2 {
        let start = args[0];
        let end = args[1];
        if start <= end {
            hour >= start && hour <= end
        } else {
            hour >= start || hour <= end
        }
    } else {
        false
    }
}

/// What `dateRange` answers on the given day: with one argument, whether it
/// is the day of the month; with two, whether they are the month and the day;
/// with three, whether they are the month, the day and the year. There are no
/// ranges of dates.
pub open spec fn date_range_on(args: Seq<u32>, day: u32, month: u32, year: i32) -> bool {
    if args.len() == 1 {
        day == args[0]
    } else if args.len() == 2 {
        month == args[0] && day == args[1]
    } else if args.len() == 3 {
        month == args[0] && day == args[1] && year == args[2]
    } else {
        false
    }
}

/// Whether the date made of `day`, `month` and `year` is the one that `args`
/// names.
pub fn date_range(args: &Vec<u32>, day: u32, month: u32, year: i32) -> (on: bool)
    ensures
        on == date_range_on(args@, day, month, year),
{
    if args.len() == 1 {
        day == args[0]
    } else if args.len() == 2 {
        month == args[0] && day == args[1]
    } else if args.len() == 3 {
        month == args[0] && day == args[1] && year >= 0 && year as u32 == args[2]
    } else {
        false
    }
}

/// The number of the weekday that `name` names, Sunday being 0: `name` is one
/// of `SUN`, `MON`, `TUE`, `WED`, `THU`, `FRI` and `SAT`, in capitals.
pub open spec fn day_number(name: Seq<char>) -> Option<u32> {
    if name == seq!['S', 'U', 'N'] {
        Some(0u32)
    } else if name == seq!['M', 'O', 'N'] {
        Some(1u32)
    } else if name == seq!['T', 'U', 'E'] {
        Some(2u32)
    } else if name == seq!['W', 'E', 'D'] {
        Some(3u32)
    } else if name == seq!['T', 'H', 'U'] {
        Some(4u32)
    } else if name == seq!['F', 'R', 'I'] {
        Some(5u32)
    } else if name == seq!['S', 'A', 'T'] {
        Some(6u32)
    } else {
        None
    }
}

/// The number of the weekday that `name` names in capitals, Sunday being 0.
pub fn day_index(name: &str) -> (day: Option<u32>)
    ensures
        day == day_number(name@),
{
    proof {
        reveal_strlit("SUN");
        reveal_strlit("MON");
        reveal_strlit("TUE");
        reveal_strlit("WED");
        reveal_strlit("THU");
        reveal_strlit("FRI");
        reveal_strlit("SAT");
        assert("SUN"@ =~= seq!['S', 'U', 'N']);
        assert("MON"@ =~= seq!['M', 'O', 'N']);
        assert("TUE"@ =~= seq!['T', 'U', 'E']);
        assert("WED"@ =~= seq!['W', 'E', 'D']);
        assert("THU"@ =~= seq!['T', 'H', 'U']);
        assert("FRI"@ =~= seq!['F', 'R', 'I']);
        assert("SAT"@ =~= seq!['S', 'A', 'T']);
    }
    if same_text(name, "SUN") {
        Some(0)
    } else if same_text(name, "MON") {
        Some(1)
    } else if same_text(name, "TUE") {
        Some(2)
    } else if same_text(name, "WED") {
        Some(3)
    } else if same_text(name, "THU") {
        Some(4)
    } else if same_text(name, "FRI") {
        Some(5)
    } else if same_text(name, "SAT") {
        Some(6)
    } else {
        None
    }
}

/// Whether the weekday `current` lies between the weekdays `start` and `end`,
/// both included, the days being numbered from 0 to 6. Where `start` is the
/// later day of the two the range runs over the end of the week.
pub open spec fn weekday_between(start: u32, end: u32, current: u32) -> bool {
    if start <= end {
        start <= current <= end
    } else {
        start <= current < 7 || current <= end
    }
}

/// Whether the weekday `current` lies between `start` and `end`.
pub fn is_weekday_between(start: u32, end: u32, current: u32) -> (within: bool)
    ensures
        within == weekday_between(start, end, current),
{
    if start <= end {
        start <= current && current <= end
    } else {
        (start <= current && current < 7) || current <= end
    }
}

/// `text` with each of its characters in upper case, as Unicode has it.
pub uninterp spec fn uppercase_of(text: Seq<char>) -> Seq<char>;

/// `str::to_uppercase` of the standard library: the text in upper case. The
/// result is a function of the text alone.
#[verifier::external_body]
fn to_uppercase(text: &str) -> (upper: String)
    ensures
        upper@ == uppercase_of(text@),
{
    text.to_uppercase()
}

/// What `weekdayRange` answers on the weekday `current` for names of days
/// in capitals: with one name, whether it names that day; with two, whether
/// both name a day and `current` lies between them; with none or more than
/// two, `false`.
pub open spec fn weekday_names_on(names: Seq<Seq<char>>, current: u32) -> bool {
    if names.len() == 1 {
        day_number(names[0]) == Some(current)
    } else if names.len() == 2 {
        match (day_number(names[0]), day_number(names[1])) {
            (Some(start), Some(end)) => weekday_between(start, end, current),
            _ => false,
        }
    } else {
        false
    }
}

/// A range of weekdays whose first day is the later one runs over the end of
/// the week: it holds the days from the first on and those up to the second.
pub proof fn lemma_weekday_range_around_week_end(
    first: Seq<char>,
    second: Seq<char>,
    start: u32,
    end: u32,
    current: u32,
)
    requires
        day_number(first) == Some(start),
        day_number(second) == Some(end),
        start > end,
        current < 7,
    ensures
        weekday_names_on(seq![first, second], current) <==> (current >= start || current <= end),
{
}

/// The range from `FRI` to `MON` holds Friday, Saturday, Sunday and Monday,
/// and no other day.
pub proof fn lemma_friday_to_monday(current: u32)
    requires
        current < 7,
    ensures
        weekday_names_on(seq![seq!['F', 'R', 'I'], seq!['M', 'O', 'N']], current) <==> (current
            == 5 || current == 6 || current == 0 || current == 1),
{
    let friday = seq!['F', 'R', 'I'];
    let monday = seq!['M', 'O', 'N'];
    assert(friday[0] == 'F' && monday[0] == 'M');
    assert(seq!['S', 'U', 'N'][0] == 'S');
    assert(seq!['M', 'O', 'N'][0] == 'M');
    assert(seq!['T', 'U', 'E'][0] == 'T');
    assert(seq!['W', 'E', 'D'][0] == 'W');
    assert(seq!['T', 'H', 'U'][0] == 'T');
    assert(seq!['S', 'A', 'T'][0] == 'S');
    assert(day_number(friday) == Some(5u32));
    assert(day_number(monday) == Some(1u32));
    lemma_weekday_range_around_week_end(friday, monday, 5, 1, current);
}

/// Whether the weekday `current`, Sunday being 0, is the one that `names`
/// names, or lies in the range of days that `names` gives. The names are
/// those of the days in capitals.
pub fn weekday_range_of_names(names: &Vec<String>, current: u32) -> (within: bool)
    ensures
        within == weekday_names_on(texts_of(names@), current),
{
    if names.len() == 1 {
        match day_index(names[0].as_str()) {
            Some(day) => day == current,
            None => false,
        }
    } else if names.len() == 2 {
        match (day_index(names[0].as_str()), day_index(names[1].as_str())) {
            (Some(start), Some(end)) => is_weekday_between(start, end, current),
            _ => false,
        }
    } else {
        false
    }
}

/// The name by which a token names a day: the token itself where it is the
/// name of a day in capitals, and the token in upper case where it is not.
pub open spec fn name_of_token(token: Seq<char>) -> Seq<char> {
    if day_number(token) is Some {
        token
    } else {
        uppercase_of(token)
    }
}

/// The names by which tokens name their days.
pub open spec fn names_of_tokens(tokens: Seq<Seq<char>>) -> Seq<Seq<char>> {
    Seq::new(tokens.len(), |i: int| name_of_token(tokens[i]))
}

/// What `weekdayRange` answers on the weekday `current` for tokens in either
/// case: what it answers for the names by which the tokens name their days.
pub open spec fn weekday_range_on(tokens: Seq<Seq<char>>, current: u32) -> bool {
    weekday_names_on(names_of_tokens(tokens), current)
}

/// For tokens that are names of days in capitals, a range whose first day is
/// the later one runs over the end of the week: the range from `FRI` to `MON`
/// holds Friday, Saturday, Sunday and Monday, and no other day.
pub proof fn lemma_weekday_tokens_around_week_end(
    first: Seq<char>,
    second: Seq<char>,
    start: u32,
    end: u32,
    current: u32,
)
    requires
        day_number(first) == Some(start),
        day_number(second) == Some(end),
        start > end,
        current < 7,
    ensures
        weekday_range_on(seq![first, second], current) <==> (current >= start || current <= end),
        weekday_range_on(seq![seq!['F', 'R', 'I'], seq!['M', 'O', 'N']], current) <==> (current
            == 5 || current == 6 || current == 0 || current == 1),
{
    let tokens = seq![first, second];
    assert(names_of_tokens(tokens) =~= tokens);
    lemma_weekday_range_around_week_end(first, second, start, end, current);
    let friday = seq!['F', 'R', 'I'];
    let monday = seq!['M', 'O', 'N'];
    lemma_friday_to_monday(current);
    assert(friday[0] == 'F' && monday[0] == 'M');
    assert(seq!['S', 'U', 'N'][0] == 'S');
    assert(seq!['T', 'U', 'E'][0] == 'T');
    assert(seq!['W', 'E', 'D'][0] == 'W');
    assert(seq!['T', 'H', 'U'][0] == 'T');
    assert(seq!['S', 'A', 'T'][0] == 'S');
    assert(day_number(friday) == Some(5u32));
    assert(day_number(monday) == Some(1u32));
    assert(names_of_tokens(seq![friday, monday]) =~= seq![friday, monday]);
}

/// The name by which `token` names a day: the token as it is where it names
/// a day in capitals, and in upper case where it does not.
fn day_name(token: &String) -> (name: String)
    ensures
        name@ == name_of_token(token@),
{
    match day_index(token.as_str()) {
        Some(_) => token.clone(),
        None => to_uppercase(token.as_str()),
    }
}

/// Whether the weekday `current`, Sunday being 0, is the one that `args`
/// names, or lies in the range of days that `args` gives. The tokens of
/// `args` name the days in either case.
pub fn weekday_range(args: &Vec<String>, current: u32) -> (within: bool)
    ensures
        within == weekday_range_on(texts_of(args@), current),
{
    let mut names: Vec<String> = Vec::new();
    let mut i: usize = 0;
    while i < args.len()
        invariant
            i <= args@.len(),
            names@.len() == i,
            forall|k: int| 0 <= k < i ==> (#[trigger] names@[k])@ == name_of_token(args@[k]@),
        decreases args@.len() - i,
    {
        names.push(day_name(&args[i]));
        i += 1;
    }
    assert(texts_of(names@) =~= names_of_tokens(texts_of(args@)));
    weekday_range_of_names(&names, current)
}

/// The date and the hour on the local clock, as the predicates read them.
#[derive(Clone, Copy, Debug, PartialEq, Eq)]
pub struct LocalTime {
    /// The day of the week, Sunday being 0.
    pub weekday: u32,
    /// The hour of the day, from 0 to 23.
    pub hour: u32,
    /// The day of the month, from 1.
    pub day: u32,
    /// The month of the year, from 1.
    pub month: u32,
    /// The year.
    pub year: i32,
}

/// What the clock of the system shows: how far it is from the first second
/// of the year 1970, in whole seconds and the billionths of a second beyond
/// them, after it or before it.
#[derive(Clone, Copy, Debug, PartialEq, Eq)]
pub enum ClockReading {
    /// The clock shows a time at or after the start of 1970.
    After { secs: u64, nanos: u32 },
    /// The clock shows a time before the start of 1970.
    Before { secs: u64, nanos: u32 },
}

/// How many billionths of a second make a second.
pub const NANOS_PER_SEC: u32 = 1_000_000_000u32;

/// The time that a reading shows, in billionths of a second from the start of
/// 1970: below zero before it.
pub open spec fn instant_of(reading: ClockReading) -> int {
    match reading {
        ClockReading::After { secs, nanos } => secs * NANOS_PER_SEC + nanos,
        ClockReading::Before { secs, nanos } => -(secs * NANOS_PER_SEC + nanos),
    }
}

/// `SystemTime::elapsed` of the standard library, asked of `UNIX_EPOCH`: the
/// time on the clock of the system as its distance from the start of 1970,
/// on either side of it. Each reading may differ from the last.
#[verifier::external_body]
fn read_clock() -> (reading: ClockReading) {
    match std::time::UNIX_EPOCH.elapsed() {
        Ok(since) => ClockReading::After { secs: since.as_secs(), nanos: since.subsec_nanos() },
        Err(until) => ClockReading::Before {
            secs: until.duration().as_secs(),
            nanos: until.duration().subsec_nanos(),
        },
    }
}

/// Whether a reading shows a time that can be counted in seconds: its
/// billionths are less than a second, and its seconds fit the machine's
/// numbers.
pub open spec fn is_readable(reading: ClockReading) -> bool {
    match reading {
        ClockReading::After { secs, nanos } => nanos < NANOS_PER_SEC && secs <= i64::MAX,
        ClockReading::Before { secs, nanos } => nanos < NANOS_PER_SEC && secs < i64::MAX,
    }
}

/// The time that a reading shows as seconds from the start of 1970 and the
/// billionths of a second after that second: the seconds are below zero for a
/// time before 1970, and the billionths count forwards in either case.
pub fn timestamp_of(reading: ClockReading) -> (stamp: Option<(i64, u32)>)
    ensures
        stamp is Some <==> is_readable(reading),
        stamp matches Some((secs, nanos)) ==> nanos < NANOS_PER_SEC && secs * NANOS_PER_SEC
            + nanos == instant_of(reading),
{
    match reading {
        ClockReading::After { secs, nanos } => {
            if nanos >= NANOS_PER_SEC || secs > 0x7fff_ffff_ffff_ffff {
                None
            } else {
                Some((secs as i64, nanos))
            }
        },
        ClockReading::Before { secs, nanos } => {
            if nanos >= NANOS_PER_SEC || secs >= 0x7fff_ffff_ffff_ffff {
                None
            } else if nanos == 0 {
                Some((-(secs as i64), 0))
            } else {
                Some((-(secs as i64) - 1, NANOS_PER_SEC - nanos))
            }
        },
    }
}

/// `DateTime::from_timestamp` and `DateTime::with_timezone` of chrono, with
/// the parts of the local date and time that the predicates read: the
/// weekday counted from Sunday, the hour, the day of the month, the month and
/// the year. There is none where the time is outside the years that chrono
/// knows. What comes back depends on the time zone of the system; the
/// weekday is below 7, the hour below 24, the day between 1 and 31 and the
/// month between 1 and 12.
#[verifier::external_body]
fn local_time_at(secs: i64, nanos: u32) -> (time: Option<LocalTime>)
    ensures
        time matches Some(local) ==> local.weekday < 7 && local.hour < 24 && 1 <= local.day <= 31
            && 1 <= local.month <= 12,
{
    match chrono::DateTime::from_timestamp(secs, nanos) {
        Some(utc) => {
            let local = utc.with_timezone(&chrono::Local);
            Some(LocalTime {
                weekday: local.weekday().num_days_from_sunday(),
                hour: local.hour(),
                day: local.day(),
                month: local.month(),
                year: local.year(),
            })
        },
        None => None,
    }
}

/// The local date and hour at the time that a reading of the clock shows, if
/// the time is one that has a date.
pub fn local_time_of(reading: ClockReading) -> (time: Option<LocalTime>)
    ensures
        !is_readable(reading) ==> time is None,
        time matches Some(local) ==> local.weekday < 7 && local.hour < 24 && 1 <= local.day <= 31
            && 1 <= local.month <= 12,
{
    match timestamp_of(reading) {
        Some((secs, nanos)) => local_time_at(secs, nanos),
        None => None,
    }
}

/// The local date and hour now, if the clock shows a time that has a date.
pub fn local_now() -> (now: Option<LocalTime>)
    ensures
        now matches Some(local) ==> local.weekday < 7 && local.hour < 24 && 1 <= local.day <= 31
            && 1 <= local.month <= 12,
{
    local_time_of(read_clock())
}

/// Whether today, on the local clock, is the weekday that `args` names, or
/// lies in the range of days that `args` gives. Without a date on the clock
/// the answer is `false`.
pub fn weekday_range_js(args: &Vec<String>) -> (within: bool)
    ensures
        within ==> exists|today: u32| today < 7 && weekday_range_on(texts_of(args@), today),
{
    match local_now() {
        Some(now) => weekday_range(args, now.weekday),
        None => false,
    }
}

/// Whether the hour on the local clock is the one that `args` names, or lies
/// in the range that `args` gives. Without a date on the clock the answer is
/// `false`.
pub fn time_range_js(args: &Vec<u32>) -> (within: bool)
    ensures
        within ==> exists|hour: u32| hour < 24 && time_range_at(args@, hour),
{
    match local_now() {
        Some(now) => time_range(args, now.hour),
        None => false,
    }
}

/// Whether the date on the local clock is the one that `args` names. Without
/// a date on the clock the answer is `false`.
pub fn date_range_js(args: &Vec<u32>) -> (on: bool)
    ensures
        on ==> exists|day: u32, month: u32, year: i32|
            1 <= day <= 31 && 1 <= month <= 12 && date_range_on(args@, day, month, year),
{
    match local_now() {
        Some(now) => date_range(args, now.day, now.month, now.year),
        None => false,
    }
}

} // verus!
