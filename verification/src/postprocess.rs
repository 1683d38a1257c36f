//! Post-processing passes on the traced SVG: dropping tiny paths and sealing
//! hairline gaps with a stroke in the path's own fill colour.

use vstd::prelude::*;
use vstd::utf8::{decode_utf8, encode_utf8, valid_utf8};
use crate::config::PostprocessConfig;
use crate::xml::{
    event_view, is_final, pending_events, svg_events, EventView,
    attribute_items, attributes_of, clear_attributes, lossy_text, tag_name_of, new_path_tag, new_writer, next_attribute,
    next_event, pending_attributes, push_raw_attribute, push_text_attribute, svg_reader, tag_bytes,
    event_bytes, tag_name, utf8_lossy, utf8_string, write_empty, write_other, write_start, written, written_bytes,
    xml_escape, RawAttr, XmlEvent,
};
use quick_xml::events::BytesStart;
use crate::text::{
    ascii_lowercase, char_width, chars_of, decimal, decimal_chars, thousandths_chars, thousandths_text, to_ascii_lowercase,
    trim, trim_chars, utf8_len, utf8_length, utf8_width, string_from_chars,
};

verus! {

/// Value of one hexadecimal digit (either case).
pub open spec fn hex_value(c: char) -> Option<u8> {
    if '0' <= c && c <= '9' {
        Some(((c as u32) - ('0' as u32)) as u8)
    } else if 'a' <= c && c <= 'f' {
        Some(((c as u32) - ('a' as u32) + 10) as u8)
    } else if 'A' <= c && c <= 'F' {
        Some(((c as u32) - ('A' as u32) + 10) as u8)
    } else {
        None
    }
}

/// `u8::from_str_radix(s, 16)` on a two-character ASCII string `[a, b]`:
/// an optional leading `+` followed by hexadecimal digits.
pub open spec fn hex_pair(a: char, b: char) -> Option<u8> {
    if a == '+' {
        hex_value(b)
    } else {
        match (hex_value(a), hex_value(b)) {
            (Some(x), Some(y)) => Some((x * 16 + y) as u8),
            _ => None,
        }
    }
}

/// Parsing the two bytes at the front of `rest` (which holds at least two
/// bytes of UTF-8). `None`: byte two falls inside a character, so slicing
/// there is impossible; `Some(None)`: the two bytes are no hex number;
/// `Some(Some(v))`: their value.
pub open spec fn pair_at(rest: Seq<char>) -> Option<Option<u8>> {
    if utf8_width(rest[0]) == 1 {
        if utf8_width(rest[1]) == 1 {
            Some(hex_pair(rest[0], rest[1]))
        } else {
            None
        }
    } else if utf8_width(rest[0]) == 2 {
        Some(None)
    } else {
        None
    }
}

/// Each character doubled: `abc` becomes `aabbcc`.
pub open spec fn doubled(s: Seq<char>) -> Seq<char> {
    Seq::new(2 * s.len(), |i: int| s[i / 2])
}

/// The six hex digits of a `#rgb` / `#rrggbb` colour, when the text after
/// `#` is three or six bytes long.
pub open spec fn six_digits(hex: Seq<char>) -> Option<Seq<char>> {
    if hex.len() > 0 && hex[0] == '#' {
        let s = hex.drop_first();
        if utf8_len(s) == 3 {
            Some(doubled(s))
        } else if utf8_len(s) == 6 {
            Some(s)
        } else {
            None
        }
    } else {
        None
    }
}

pub open spec fn max3(r: u8, g: u8, b: u8) -> u8 {
    let m = if r >= g { r } else { g };
    if m >= b { m } else { b }
}

/// The channel scan: the three pairs are read in turn and the scan stops at
/// the first pair that is no number. `None` when a pair would have to be cut
/// inside a multi-byte character.
pub open spec fn channel_scan(hex: Seq<char>) -> Option<Option<u8>> {
    match six_digits(hex) {
        None => Some(None),
        Some(f) => match pair_at(f) {
            None => None,
            Some(None) => Some(None),
            Some(Some(r)) => match pair_at(f.skip(2)) {
                None => None,
                Some(None) => Some(None),
                Some(Some(g)) => match pair_at(f.skip(4)) {
                    None => None,
                    Some(None) => Some(None),
                    Some(Some(b)) => Some(Some(max3(r, g, b))),
                },
            },
        },
    }
}

/// The colour text makes the scan slice a string inside a character.
pub open spec fn splits_char(hex: Seq<char>) -> bool {
    channel_scan(hex) is None
}

/// Max RGB channel of a `#rgb` / `#rrggbb` colour, or `None` if unparseable.
pub open spec fn spec_max_channel(hex: Seq<char>) -> Option<u8> {
    match channel_scan(hex) {
        Some(r) => r,
        None => None,
    }
}

proof fn lemma_utf8_len_front(s: Seq<char>)
    requires
        s.len() > 0,
    ensures
        utf8_len(s) == utf8_width(s[0]) + utf8_len(s.drop_first()),
{
}

proof fn lemma_utf8_len_nonempty(s: Seq<char>)
    requires
        utf8_len(s) > 0,
    ensures
        s.len() > 0,
{
}

/// Two single-byte characters at the front take two bytes.
proof fn lemma_skip_two(s: Seq<char>)
    requires
        s.len() >= 2,
        utf8_width(s[0]) == 1,
        utf8_width(s[1]) == 1,
    ensures
        utf8_len(s.skip(2)) == utf8_len(s) - 2,
{
    lemma_utf8_len_front(s);
    lemma_utf8_len_front(s.drop_first());
    assert(s.drop_first().drop_first() =~= s.skip(2));
}

fn hex_digit_value(c: char) -> (r: Option<u8>)
    ensures
        r == hex_value(c),
{
    let u = c as u32;
    if '0' <= c && c <= '9' {
        Some((u - 48) as u8)
    } else if 'a' <= c && c <= 'f' {
        Some((u - 97 + 10) as u8)
    } else if 'A' <= c && c <= 'F' {
        Some((u - 65 + 10) as u8)
    } else {
        None
    }
}

fn parse_pair(f: &Vec<char>, at: usize) -> (r: Option<Option<u8>>)
    requires
        at <= f.len(),
        utf8_len(f@.skip(at as int)) >= 2,
    ensures
        r == pair_at(f@.skip(at as int)),
        r matches Some(Some(_)) ==> at + 2 <= f.len() && utf8_width(f@[at as int]) == 1
            && utf8_width(f@[at + 1]) == 1,
{
    let ghost rest = f@.skip(at as int);
    proof {
        lemma_utf8_len_nonempty(rest);
        lemma_utf8_len_front(rest);
    }
    let w0 = char_width(f[at]);
    if w0 == 1 {
        proof {
            lemma_utf8_len_nonempty(rest.drop_first());
        }
        let w1 = char_width(f[at + 1]);
        if w1 == 1 {
            let a = f[at];
            let b = f[at + 1];
            if a == '+' {
                Some(hex_digit_value(b))
            } else {
                match (hex_digit_value(a), hex_digit_value(b)) {
                    (Some(x), Some(y)) => Some(Some(x * 16 + y)),
                    _ => Some(None),
                }
            }
        } else {
            None
        }
    } else if w0 == 2 {
        Some(None)
    } else {
        None
    }
}

/// The scan on the colour's characters.
fn scan_channels(hex: &Vec<char>) -> (r: Option<Option<u8>>)
    ensures
        r == channel_scan(hex@),
{
    if hex.len() == 0 || hex[0] != '#' {
        return Some(None);
    }
    let mut s: Vec<char> = Vec::new();
    for i in 1..hex.len()
        invariant
            1 <= hex.len(),
            s@ == hex@.subrange(1, i as int),
    {
        s.push(hex[i]);
        assert(hex@.subrange(1, i + 1) =~= hex@.subrange(1, i as int).push(hex@[i as int]));
    }
    assert(s@ =~= hex@.drop_first());
    let n = utf8_length(&s);
    let f: Vec<char> = if n == 3 {
        let mut d: Vec<char> = Vec::new();
        for i in 0..s.len()
            invariant
                d@ =~= doubled(s@.take(i as int)),
        {
            d.push(s[i]);
            d.push(s[i]);
            assert(doubled(s@.take(i + 1)) =~= doubled(s@.take(i as int)).push(s@[i as int]).push(s@[i as int]));
        }
        assert(s@.take(s.len() as int) =~= s@);
        proof {
            lemma_doubled_len(s@);
        }
        d
    } else if n == 6 {
        s
    } else {
        return Some(None);
    };
    assert(six_digits(hex@) == Some(f@));
    assert(utf8_len(f@) == 6);
    assert(f@.skip(0) =~= f@);
    match parse_pair(&f, 0) {
        None => None,
        Some(None) => Some(None),
        Some(Some(r)) => {
            proof {
                lemma_skip_two(f@);
            }
            match parse_pair(&f, 2) {
                None => None,
                Some(None) => Some(None),
                Some(Some(g)) => {
                    proof {
                        lemma_skip_two(f@.skip(2));
                        assert(f@.skip(2).skip(2) =~= f@.skip(4));
                    }
                    match parse_pair(&f, 4) {
                        None => None,
                        Some(None) => Some(None),
                        Some(Some(b)) => {
                            let m = if r >= g { r } else { g };
                            Some(Some(if m >= b { m } else { b }))
                        },
                    }
                },
            }
        },
    }
}

/// A doubled sequence takes twice the bytes.
proof fn lemma_doubled_len(s: Seq<char>)
    ensures
        utf8_len(doubled(s)) == 2 * utf8_len(s),
    decreases s.len(),
{
    if s.len() > 0 {
        lemma_doubled_len(s.drop_first());
        let d = doubled(s);
        lemma_utf8_len_front(d);
        lemma_utf8_len_front(d.drop_first());
        assert(d.drop_first().drop_first() =~= doubled(s.drop_first()));
    } else {
        assert(doubled(s) =~= Seq::<char>::empty());
    }
}

/// Max RGB channel of a `#rgb` / `#rrggbb` colour, or `None` if unparseable
/// (a colour whose hex pairs would cut a multi-byte character among them).
pub fn max_channel(hex: &str) -> (r: Option<u8>)
    ensures
        r == spec_max_channel(hex@),
{
    let cs = chars_of(hex);
    match scan_channels(&cs) {
        Some(r) => r,
        None => None,
    }
}

/// The colour after trimming and lower-casing, as `should_seal` compares it.
pub open spec fn fill_key(fill: Seq<char>) -> Seq<char> {
    ascii_lowercase(trim(fill))
}

pub open spec fn is_no_paint(f: Seq<char>) -> bool {
    f == "none"@ || f == "transparent"@
}

/// Whether a path with this fill gets a sealing stroke: never for `none` or
/// `transparent`; always when the cap is 255; otherwise when the fill's max
/// channel is at most the cap, or the fill is no `#rgb`/`#rrggbb` colour.
pub open spec fn spec_should_seal(fill: Seq<char>, bright_cap: u8) -> bool {
    let f = fill_key(fill);
    if is_no_paint(f) {
        false
    } else if bright_cap >= 255 {
        true
    } else {
        match spec_max_channel(f) {
            Some(m) => m <= bright_cap,
            None => true,
        }
    }
}

fn seq_is(s: &Vec<char>, lit: &str) -> (r: bool)
    ensures
        r == (s@ == lit@),
{
    let l = chars_of(lit);
    if s.len() != l.len() {
        return false;
    }
    for i in 0..s.len()
        invariant
            s.len() == l.len(),
            l@ == lit@,
            forall|j: int| 0 <= j < i ==> s@[j] == l@[j],
    {
        if s[i] != l[i] {
            return false;
        }
    }
    assert(s@ =~= l@);
    true
}

/// Whether a path filled with `fill` gets a sealing stroke under the
/// brightness cap `bright_cap`.
pub fn should_seal(fill: &str, bright_cap: u8) -> (r: bool)
    ensures
        r == spec_should_seal(fill@, bright_cap),
{
    let f = to_ascii_lowercase(&trim_chars(&chars_of(fill)));
    if seq_is(&f, "none") || seq_is(&f, "transparent") {
        return false;
    }
    if bright_cap >= 255 {
        return true;
    }
    match scan_channels(&f) {
        Some(Some(m)) => m <= bright_cap,
        _ => true,
    }
}

/// Raising the brightness cap never takes a seal away: a fill sealed under
/// one cap is sealed under every higher cap.
pub proof fn lemma_should_seal_monotone(fill: Seq<char>, low: u8, high: u8)
    requires
        low <= high,
        spec_should_seal(fill, low),
    ensures
        spec_should_seal(fill, high),
{
}

/// A cap of 255 seals every fill but `none` and `transparent`.
pub proof fn lemma_full_cap_seals_all_paint(fill: Seq<char>)
    requires
        !is_no_paint(fill_key(fill)),
    ensures
        spec_should_seal(fill, 255),
{
}

/// `none` and `transparent` (in any case, with surrounding white space) are
/// never sealed, whatever the cap.
pub proof fn lemma_no_paint_never_sealed(fill: Seq<char>, cap: u8)
    requires
        is_no_paint(fill_key(fill)),
    ensures
        !spec_should_seal(fill, cap),
{
}

/// A three-digit colour reads as its six-digit form with every digit
/// doubled: `#rgb` has the max channel of `#rrggbb`.
pub proof fn lemma_short_colour_is_doubled(digits: Seq<char>)
    requires
        utf8_len(digits) == 3,
    ensures
        spec_max_channel(seq!['#'] + digits) == spec_max_channel(seq!['#'] + doubled(digits)),
        splits_char(seq!['#'] + digits) == splits_char(seq!['#'] + doubled(digits)),
{
    lemma_doubled_len(digits);
    assert((seq!['#'] + digits).drop_first() =~= digits);
    assert((seq!['#'] + doubled(digits)).drop_first() =~= doubled(digits));
}

/// The lower-case hexadecimal digit of a value below 16.
pub open spec fn hex_digit(v: u8) -> char {
    if v < 10 {
        (48 + v) as char
    } else {
        (87 + v) as char
    }
}

/// The `#rrggbb` text of a colour, in lower-case hexadecimal.
pub open spec fn hex_colour_text(r: u8, g: u8, b: u8) -> Seq<char> {
    seq!['#', hex_digit(r / 16), hex_digit(r % 16), hex_digit(g / 16), hex_digit(g % 16), hex_digit(b / 16), hex_digit(b % 16)]
}

/// The `#rgb` text of a colour whose channels are single hexadecimal digits.
pub open spec fn short_colour_text(r: u8, g: u8, b: u8) -> Seq<char> {
    seq!['#', hex_digit(r), hex_digit(g), hex_digit(b)]
}

proof fn lemma_hex_digit_value(v: u8)
    requires
        v < 16,
    ensures
        hex_value(hex_digit(v)) == Some(v),
        utf8_width(hex_digit(v)) == 1,
        hex_digit(v) != '+',
        !('A' <= hex_digit(v) && hex_digit(v) <= 'Z'),
        !crate::text::is_white_space(hex_digit(v)),
{
}

/// ASCII characters take one byte each.
proof fn lemma_ascii_utf8_len(s: Seq<char>)
    requires
        forall|i: int| 0 <= i < s.len() ==> utf8_width(#[trigger] s[i]) == 1,
    ensures
        utf8_len(s) == s.len(),
    decreases s.len(),
{
    if s.len() > 0 {
        assert(utf8_width(s[0]) == 1);
        lemma_ascii_utf8_len(s.drop_first());
    }
}

/// The max channel of a `#rrggbb` colour is the largest of its red, green and
/// blue values.
pub proof fn lemma_hex_colour_max_channel(r: u8, g: u8, b: u8)
    ensures
        spec_max_channel(hex_colour_text(r, g, b)) matches Some(m) && m >= r && m >= g && m >= b && (
        m == r || m == g || m == b),
{
    let t = hex_colour_text(r, g, b);
    lemma_hex_digit_value(r / 16);
    lemma_hex_digit_value(r % 16);
    lemma_hex_digit_value(g / 16);
    lemma_hex_digit_value(g % 16);
    lemma_hex_digit_value(b / 16);
    lemma_hex_digit_value(b % 16);
    let f = t.drop_first();
    assert(f =~= seq![hex_digit(r / 16), hex_digit(r % 16), hex_digit(g / 16), hex_digit(g % 16), hex_digit(b / 16), hex_digit(b % 16)]);
    lemma_ascii_utf8_len(f);
    assert(six_digits(t) == Some(f));
    assert(f.skip(2)[0] == f[2] && f.skip(2)[1] == f[3]);
    assert(f.skip(4)[0] == f[4] && f.skip(4)[1] == f[5]);
    assert(pair_at(f) == Some(Some(r)));
    assert(pair_at(f.skip(2)) == Some(Some(g)));
    assert(pair_at(f.skip(4)) == Some(Some(b)));
    assert(channel_scan(t) == Some(Some(max3(r, g, b))));
}

/// A `#rrggbb` fill (in lower case, without surrounding white space) is
/// compared as it stands.
proof fn lemma_hex_colour_key(r: u8, g: u8, b: u8)
    ensures
        fill_key(hex_colour_text(r, g, b)) == hex_colour_text(r, g, b),
        !is_no_paint(hex_colour_text(r, g, b)),
{
    let t = hex_colour_text(r, g, b);
    lemma_hex_digit_value(r / 16);
    lemma_hex_digit_value(r % 16);
    lemma_hex_digit_value(g / 16);
    lemma_hex_digit_value(g % 16);
    lemma_hex_digit_value(b / 16);
    lemma_hex_digit_value(b % 16);
    crate::text::lemma_trim_noop(t);
    assert(ascii_lowercase(t) =~= t);
    reveal_strlit("none");
    reveal_strlit("transparent");
    assert(t.len() == 7);
}

/// Under a cap below 255, a path filled with the colour `#rrggbb` is sealed
/// exactly when each of its red, green and blue values is at most the cap.
pub proof fn lemma_should_seal_hex_colour(r: u8, g: u8, b: u8, cap: u8)
    requires
        cap < 255,
    ensures
        spec_should_seal(hex_colour_text(r, g, b), cap) == (r <= cap && g <= cap && b <= cap),
{
    lemma_hex_colour_key(r, g, b);
    lemma_hex_colour_max_channel(r, g, b);
}

/// Under a cap below 255, a path filled with the short colour `#rgb` is sealed
/// exactly when each of its channels, read as the doubled digit (17 times the
/// digit), is at most the cap.
pub proof fn lemma_should_seal_short_colour(r: u8, g: u8, b: u8, cap: u8)
    requires
        r < 16,
        g < 16,
        b < 16,
        cap < 255,
    ensures
        spec_should_seal(short_colour_text(r, g, b), cap) == (17 * r <= cap && 17 * g <= cap && 17 * b
            <= cap),
{
    let digits = seq![hex_digit(r), hex_digit(g), hex_digit(b)];
    lemma_hex_digit_value(r);
    lemma_hex_digit_value(g);
    lemma_hex_digit_value(b);
    lemma_ascii_utf8_len(digits);
    lemma_short_colour_is_doubled(digits);
    let (r2, g2, b2) = ((17 * r) as u8, (17 * g) as u8, (17 * b) as u8);
    assert(r2 / 16 == r && r2 % 16 == r);
    assert(g2 / 16 == g && g2 % 16 == g);
    assert(b2 / 16 == b && b2 % 16 == b);
    assert(seq!['#'] + digits =~= short_colour_text(r, g, b));
    assert(seq!['#'] + doubled(digits) =~= hex_colour_text(r2, g2, b2));
    lemma_hex_colour_max_channel(r2, g2, b2);
    lemma_hex_colour_key(r2, g2, b2);
    let t = short_colour_text(r, g, b);
    crate::text::lemma_trim_noop(t);
    assert(ascii_lowercase(t) =~= t);
    reveal_strlit("none");
    reveal_strlit("transparent");
    assert(t.len() == 4);
    assert(t != "none"@) by {
        assert(t[0] == '#');
        assert("none"@[0] == 'n');
    }
}

/// White space around a fill changes nothing: a fill is sealed exactly when
/// the same fill without its leading and trailing white space is.
pub proof fn lemma_should_seal_ignores_surrounding_space(fill: Seq<char>, cap: u8)
    ensures
        spec_should_seal(fill, cap) == spec_should_seal(trim(fill), cap),
{
    crate::text::lemma_trim_ends(fill);
    crate::text::lemma_trim_noop(trim(fill));
}

/// The upper-case hexadecimal digit of a value below 16.
pub open spec fn upper_hex_digit(v: u8) -> char {
    if v < 10 {
        (48 + v) as char
    } else {
        (55 + v) as char
    }
}

/// The `#RRGGBB` text of a colour, in upper-case hexadecimal.
pub open spec fn upper_hex_colour_text(r: u8, g: u8, b: u8) -> Seq<char> {
    seq![
        '#',
        upper_hex_digit(r / 16),
        upper_hex_digit(r % 16),
        upper_hex_digit(g / 16),
        upper_hex_digit(g % 16),
        upper_hex_digit(b / 16),
        upper_hex_digit(b % 16),
    ]
}

/// Case does not matter: `#RRGGBB` is sealed exactly when `#rrggbb` is, so
/// under a cap below 255 exactly when each of its red, green and blue values
/// is at most the cap.
pub proof fn lemma_should_seal_upper_hex_colour(r: u8, g: u8, b: u8, cap: u8)
    requires
        cap < 255,
    ensures
        spec_should_seal(upper_hex_colour_text(r, g, b), cap) == (r <= cap && g <= cap && b <= cap),
{
    let t = upper_hex_colour_text(r, g, b);
    assert(!crate::text::is_white_space(t[0]));
    assert(!crate::text::is_white_space(t[6]));
    crate::text::lemma_trim_noop(t);
    assert(ascii_lowercase(t) =~= hex_colour_text(r, g, b));
    lemma_hex_colour_key(r, g, b);
    lemma_should_seal_hex_colour(r, g, b, cap);
}

/// The attribute key `d`.
pub open spec fn key_d() -> Seq<u8> {
    seq![100u8]
}

/// The attribute key `fill`.
pub open spec fn key_fill() -> Seq<u8> {
    seq![102u8, 105u8, 108u8, 108u8]
}

/// The attribute key `stroke`.
pub open spec fn key_stroke() -> Seq<u8> {
    seq![115u8, 116u8, 114u8, 111u8, 107u8, 101u8]
}

/// The attributes that parsed, in order (parse failures skipped).
pub open spec fn ok_attributes(items: Seq<Option<(Seq<u8>, Seq<u8>)>>) -> Seq<(Seq<u8>, Seq<u8>)>
    decreases items.len(),
{
    if items.len() == 0 {
        Seq::empty()
    } else {
        let rest = ok_attributes(items.drop_last());
        match items.last() {
            Some(a) => rest.push(a),
            None => rest,
        }
    }
}

/// The value of the last attribute named `key`.
pub open spec fn last_value(attrs: Seq<(Seq<u8>, Seq<u8>)>, key: Seq<u8>) -> Option<Seq<u8>>
    decreases attrs.len(),
{
    if attrs.len() == 0 {
        None
    } else if attrs.last().0 == key {
        Some(attrs.last().1)
    } else {
        last_value(attrs.drop_last(), key)
    }
}

/// Some attribute is named `key`.
pub open spec fn has_key(attrs: Seq<(Seq<u8>, Seq<u8>)>, key: Seq<u8>) -> bool {
    exists|i: int| 0 <= i < attrs.len() && (#[trigger] attrs[i]).0 == key
}

pub open spec fn attr_views(v: Seq<RawAttr>) -> Seq<(Seq<u8>, Seq<u8>)> {
    v.map_values(|a: RawAttr| a@)
}

/// Length in characters of the path's `d` text (0 when it has none).
pub open spec fn d_length(attrs: Seq<(Seq<u8>, Seq<u8>)>) -> nat {
    match last_value(attrs, key_d()) {
        Some(v) => utf8_lossy(v).len(),
        None => 0,
    }
}

/// The path's `fill` text.
pub open spec fn fill_text(attrs: Seq<(Seq<u8>, Seq<u8>)>) -> Option<Seq<char>> {
    match last_value(attrs, key_fill()) {
        Some(v) => Some(utf8_lossy(v)),
        None => None,
    }
}

/// The path is dropped as tiny: its `d` text is shorter than the limit.
pub open spec fn is_tiny(attrs: Seq<(Seq<u8>, Seq<u8>)>, cfg: PostprocessConfig) -> bool {
    cfg.strip_tiny_paths && d_length(attrs) < cfg.tiny_path_max_len
}

/// The path is a candidate for sealing: sealing is on and it has a fill but no stroke.
pub open spec fn seal_candidate(attrs: Seq<(Seq<u8>, Seq<u8>)>, cfg: PostprocessConfig) -> bool {
    cfg.seal_gaps && !has_key(attrs, key_stroke()) && fill_text(attrs) is Some
}

/// What happens to one `<path>` tag.
pub enum PathEdit {
    /// The path is left out.
    Drop,
    /// The path is written with its attributes.
    Keep,
    /// The path is written with its attributes and a sealing stroke.
    Seal { stroke: String, stroke_width: String },
}

/// The edit for a path with these attributes: dropped when tiny, sealed
/// with its own fill colour when a candidate that `should_seal` accepts, else kept.
pub open spec fn is_path_edit(attrs: Seq<(Seq<u8>, Seq<u8>)>, cfg: PostprocessConfig, e: PathEdit) -> bool {
    if is_tiny(attrs, cfg) {
        e is Drop
    } else if seal_candidate(attrs, cfg) && spec_should_seal(
        fill_text(attrs)->Some_0,
        cfg.seal_max_brightness,
    ) {
        e matches PathEdit::Seal { stroke, stroke_width } && stroke@ == fill_text(attrs)->Some_0
            && stroke_width@ == thousandths_text(cfg.seal_stroke_width.0 as nat)
    } else {
        e is Keep
    }
}

fn bytes_are(b: &Vec<u8>, lit: &Vec<u8>) -> (r: bool)
    ensures
        r == (b@ == lit@),
{
    if b.len() != lit.len() {
        return false;
    }
    for i in 0..b.len()
        invariant
            b.len() == lit.len(),
            forall|j: int| 0 <= j < i ==> b@[j] == lit@[j],
    {
        if b[i] != lit[i] {
            return false;
        }
    }
    assert(b@ =~= lit@);
    true
}

pub open spec fn text_of(o: Option<String>) -> Option<Seq<char>> {
    match o {
        Some(s) => Some(s@),
        None => None,
    }
}

pub open spec fn lossy_of(o: Option<Seq<u8>>) -> Option<Seq<char>> {
    match o {
        Some(v) => Some(utf8_lossy(v)),
        None => None,
    }
}

/// The texts of the last `d` and `fill` attributes, and whether any `stroke` is set.
fn path_summary(attrs: &Vec<RawAttr>) -> (r: (Option<String>, Option<String>, bool))
    ensures
        text_of(r.0) == lossy_of(last_value(attr_views(attrs@), key_d())),
        text_of(r.1) == fill_text(attr_views(attrs@)),
        r.2 == has_key(attr_views(attrs@), key_stroke()),
{
    let ghost views = attr_views(attrs@);
    let kd: Vec<u8> = vec![100u8];
    let kf: Vec<u8> = vec![102u8, 105u8, 108u8, 108u8];
    let ks: Vec<u8> = vec![115u8, 116u8, 114u8, 111u8, 107u8, 101u8];
    let mut d_val: Option<String> = None;
    let mut fill_val: Option<String> = None;
    let mut has_stroke = false;
    for i in 0..attrs.len()
        invariant
            views == attr_views(attrs@),
            kd@ == key_d(),
            kf@ == key_fill(),
            ks@ == key_stroke(),
            text_of(d_val) == lossy_of(last_value(views.take(i as int), key_d())),
            text_of(fill_val) == lossy_of(last_value(views.take(i as int), key_fill())),
            has_stroke == has_key(views.take(i as int), key_stroke()),
    {
        let a = &attrs[i];
        assert(views.take(i + 1).drop_last() =~= views.take(i as int));
        assert(views.take(i + 1).last() == a@);
        if bytes_are(&a.key, &kd) {
            d_val = Some(lossy_text(a.value.as_slice()));
        } else if bytes_are(&a.key, &kf) {
            fill_val = Some(lossy_text(a.value.as_slice()));
        } else if bytes_are(&a.key, &ks) {
            has_stroke = true;
        }
        if bytes_are(&a.key, &ks) {
            assert(views.take(i + 1)[i as int].0 == key_stroke());
        } else {
            assert forall|j: int| 0 <= j < i + 1 && (#[trigger] views.take(i + 1)[j]).0 == key_stroke()
                implies 0 <= j < i && views.take(i as int)[j].0 == key_stroke() by {
                if j < i {
                    assert(views.take(i + 1)[j] == views.take(i as int)[j]);
                }
            }
        }
    }
    assert(views.take(attrs.len() as int) =~= views);
    (d_val, fill_val, has_stroke)
}

/// Decides what happens to a `<path>` with the given attributes.
pub fn transform_path(attrs: &Vec<RawAttr>, cfg: &PostprocessConfig) -> (e: PathEdit)
    ensures
        is_path_edit(attr_views(attrs@), *cfg, e),
{
    let (d_val, fill_val, has_stroke) = path_summary(attrs);
    // strip_tiny_paths: drop paths with a short `d` attribute.
    if cfg.strip_tiny_paths {
        let len = match &d_val {
            Some(d) => chars_of(d.as_str()).len(),
            None => 0,
        };
        if len < cfg.tiny_path_max_len {
            return PathEdit::Drop;
        }
    }
    if cfg.seal_gaps && !has_stroke {
        if let Some(fill) = &fill_val {
            if should_seal(fill.as_str(), cfg.seal_max_brightness) {
                let stroke = fill.clone();
                let w = thousandths_chars(cfg.seal_stroke_width.0);
                return PathEdit::Seal { stroke, stroke_width: string_from_chars(&w) };
            }
        }
    }
    PathEdit::Keep
}

/// The `<path>` tag for a kept or sealed path: all its attributes copied,
/// plus the sealing stroke when sealed.
pub fn build_path_tag(attrs: &Vec<RawAttr>, e: &PathEdit) -> (t: BytesStart<'static>)
    ensures
        tag_bytes(t) == path_tag_bytes(attr_views(attrs@), *e),
{
    let ghost views = attr_views(attrs@);
    let mut t = new_path_tag();
    for i in 0..attrs.len()
        invariant
            views == attr_views(attrs@),
            tag_bytes(t) == seq![112u8, 97u8, 116u8, 104u8] + attrs_bytes(views.take(i as int)),
    {
        let a = &attrs[i];
        push_raw_attribute(&mut t, a.key.as_slice(), a.value.as_slice());
        assert(views.take(i + 1).drop_last() =~= views.take(i as int));
        assert(views.take(i + 1).last() == a@);
    }
    assert(views.take(attrs.len() as int) =~= views);
    if let PathEdit::Seal { stroke, stroke_width } = e {
        push_seal(&mut t, stroke, stroke_width);
    }
    t
}

/// Appends the sealing stroke, its width and the round line join.
fn push_seal(t: &mut BytesStart<'static>, stroke: &String, stroke_width: &String)
    ensures
        tag_bytes(*final(t)) == tag_bytes(*old(t)) + text_attr_bytes("stroke"@, stroke@)
            + text_attr_bytes("stroke-width"@, stroke_width@) + text_attr_bytes(
            "stroke-linejoin"@,
            "round"@,
        ),
{
    let ghost t0 = tag_bytes(*t);
    push_text_attribute(t, "stroke", stroke.as_str());
    let ghost t1 = tag_bytes(*t);
    assert(t1 =~= t0 + text_attr_bytes("stroke"@, stroke@));
    push_text_attribute(t, "stroke-width", stroke_width.as_str());
    let ghost t2 = tag_bytes(*t);
    assert(t2 =~= t1 + text_attr_bytes("stroke-width"@, stroke_width@));
    push_text_attribute(t, "stroke-linejoin", "round");
    assert(tag_bytes(*t) =~= t2 + text_attr_bytes("stroke-linejoin"@, "round"@));
}

/// ` key="value"` with the raw bytes.
pub open spec fn attr_bytes(a: (Seq<u8>, Seq<u8>)) -> Seq<u8> {
    seq![32u8] + a.0 + seq![61u8, 34u8] + a.1 + seq![34u8]
}

/// The attributes written one after another.
pub open spec fn attrs_bytes(attrs: Seq<(Seq<u8>, Seq<u8>)>) -> Seq<u8>
    decreases attrs.len(),
{
    if attrs.len() == 0 {
        Seq::empty()
    } else {
        attrs_bytes(attrs.drop_last()) + attr_bytes(attrs.last())
    }
}

/// ` key="value"` with the value escaped.
pub open spec fn text_attr_bytes(key: Seq<char>, value: Seq<char>) -> Seq<u8> {
    seq![32u8] + encode_utf8(key) + seq![61u8, 34u8] + encode_utf8(xml_escape(value)) + seq![34u8]
}

/// The tag written for a kept or sealed path: `path`, its attributes, and for
/// a sealed path the stroke, stroke width and round line join.
pub open spec fn path_tag_bytes(attrs: Seq<(Seq<u8>, Seq<u8>)>, e: PathEdit) -> Seq<u8> {
    let base = seq![112u8, 97u8, 116u8, 104u8] + attrs_bytes(attrs);
    match e {
        PathEdit::Seal { stroke, stroke_width } => base + text_attr_bytes("stroke"@, stroke@)
            + text_attr_bytes("stroke-width"@, stroke_width@) + text_attr_bytes(
            "stroke-linejoin"@,
            "round"@,
        ),
        _ => base,
    }
}

/// The attributes of a tag that parse, in order.
pub fn path_attributes(e: &BytesStart<'static>) -> (r: Vec<RawAttr>)
    ensures
        attr_views(r@) == ok_attributes(attribute_items(*e)),
{
    let ghost all = attribute_items(*e);
    let mut it = attributes_of(e);
    let mut r: Vec<RawAttr> = Vec::new();
    loop
        invariant
            all == attribute_items(*e),
            pending_attributes(it).len() <= all.len(),
            all.skip(all.len() - pending_attributes(it).len()) == pending_attributes(it),
            attr_views(r@) == ok_attributes(all.take(all.len() - pending_attributes(it).len())),
        ensures
            attr_views(r@) == ok_attributes(all),
        decreases pending_attributes(it).len(),
    {
        let ghost before = pending_attributes(it);
        let ghost done = (all.len() - before.len()) as int;
        match next_attribute(&mut it) {
            None => {
                assert(all.take(all.len() as int) =~= all);
                break;
            },
            Some(item) => {
                assert(all.skip(done)[0] == all[done]);
                assert(all.skip(done + 1) =~= all.skip(done).drop_first());
                assert(all.take(done + 1).drop_last() =~= all.take(done));
                assert(all.take(done + 1).last() == all[done]);
                let ghost rb = r@;
                if let Some(a) = item {
                    r.push(a);
                    assert(attr_views(r@) =~= attr_views(rb).push(r@.last()@));
                }
            },
        }
    }
    r
}

/// The bytes of the sealing stroke: stroke colour, width and round line join.
pub open spec fn seal_bytes(fill: Seq<char>, width: u32) -> Seq<u8> {
    text_attr_bytes("stroke"@, fill) + text_attr_bytes("stroke-width"@, thousandths_text(width as nat))
        + text_attr_bytes("stroke-linejoin"@, "round"@)
}

/// The tag name `path`.
pub open spec fn path_name() -> Seq<u8> {
    seq![112u8, 97u8, 116u8, 104u8]
}

/// What a `<path>` with these attribute items becomes: `None` when it is
/// dropped, else the tag bytes to write in its place.
pub open spec fn path_output(items: Seq<Option<(Seq<u8>, Seq<u8>)>>, cfg: PostprocessConfig) -> Option<Seq<u8>> {
    let attrs = ok_attributes(items);
    let base = path_name() + attrs_bytes(attrs);
    if is_tiny(attrs, cfg) {
        None
    } else if seal_candidate(attrs, cfg) && spec_should_seal(
        fill_text(attrs)->Some_0,
        cfg.seal_max_brightness,
    ) {
        Some(base + seal_bytes(fill_text(attrs)->Some_0, cfg.seal_stroke_width.0))
    } else {
        Some(base)
    }
}

/// `rest` with `front` before it; no output stays no output.
pub open spec fn prepend(front: Seq<u8>, rest: Option<Seq<u8>>) -> Option<Seq<u8>> {
    match rest {
        Some(r) => Some(front + r),
        None => None,
    }
}

/// A tag written back: `<` tag `/>` when self-closing, else `<` tag `>`.
pub open spec fn tag_text(tag: Seq<u8>, empty: bool) -> Seq<u8> {
    if empty {
        seq![60u8] + tag + seq![47u8, 62u8]
    } else {
        seq![60u8] + tag + seq![62u8]
    }
}

/// What one event read at the top level contributes: the bytes to write, or
/// `None` for nothing (a dropped path, the end of input, an error).
pub open spec fn event_output(e: EventView, cfg: PostprocessConfig) -> Option<Seq<u8>> {
    match e {
        EventView::Eof => None,
        EventView::Failed => None,
        EventView::Empty { name, tag, attrs } => if name == path_name() {
            match path_output(attrs, cfg) {
                None => None,
                Some(t) => Some(tag_text(t, true)),
            }
        } else {
            Some(tag_text(tag, true))
        },
        EventView::Start { name, tag, attrs } => if name == path_name() {
            match path_output(attrs, cfg) {
                None => None,
                Some(t) => Some(tag_text(t, false)),
            }
        } else {
            Some(tag_text(tag, false))
        },
        EventView::End { bytes } => Some(bytes),
        EventView::Other { bytes } => Some(bytes),
    }
}

/// The event opens a `<path>` element that is dropped: everything up to its
/// matching end tag is left out with it.
pub open spec fn drops_element(e: EventView, cfg: PostprocessConfig) -> bool {
    e matches EventView::Start { name, attrs, .. } && name == path_name() && path_output(
        attrs,
        cfg,
    ) is None
}

/// The bytes written for a run of events up to the end of input, or `None`
/// when the input is to be given back (a reading error, or elements nested
/// more than `u64::MAX` deep inside a dropped path). `depth` counts the
/// elements still open inside a dropped path; while it is positive nothing is
/// written.
pub open spec fn render(evs: Seq<EventView>, cfg: PostprocessConfig, depth: nat) -> Option<Seq<u8>>
    decreases evs.len(),
{
    if evs.len() == 0 || evs[0] is Eof {
        Some(Seq::empty())
    } else if evs[0] is Failed {
        None
    } else if depth > 0 {
        match evs[0] {
            EventView::Start { .. } => if depth >= u64::MAX {
                None
            } else {
                render(evs.drop_first(), cfg, depth + 1)
            },
            EventView::End { .. } => render(evs.drop_first(), cfg, (depth - 1) as nat),
            _ => render(evs.drop_first(), cfg, depth),
        }
    } else if drops_element(evs[0], cfg) {
        render(evs.drop_first(), cfg, 1)
    } else {
        match event_output(evs[0], cfg) {
            None => render(evs.drop_first(), cfg, 0),
            Some(b) => prepend(b, render(evs.drop_first(), cfg, 0)),
        }
    }
}

/// The text `postprocess` gives back for `svg`.
pub open spec fn postprocessed(svg: Seq<char>, cfg: PostprocessConfig) -> Seq<char> {
    if !cfg.seal_gaps && !cfg.strip_tiny_paths {
        svg
    } else {
        match render(svg_events(svg), cfg, 0) {
            Some(b) => if valid_utf8(b) {
                decode_utf8(b)
            } else {
                svg
            },
            None => svg,
        }
    }
}

/// With both passes off, post-processing gives the SVG back unchanged.
pub proof fn lemma_passes_off_is_identity(svg: Seq<char>, cfg: PostprocessConfig)
    requires
        !cfg.seal_gaps,
        !cfg.strip_tiny_paths,
    ensures
        postprocessed(svg, cfg) == svg,
{
}

/// Without tiny-path stripping no path is dropped.
pub proof fn lemma_no_strip_drops_nothing(items: Seq<Option<(Seq<u8>, Seq<u8>)>>, cfg: PostprocessConfig)
    requires
        !cfg.strip_tiny_paths,
    ensures
        path_output(items, cfg) is Some,
{
}

/// A path that already has a stroke, or any path when sealing is off, is
/// written with exactly its own attributes unless it is dropped as tiny.
pub proof fn lemma_unsealed_path_kept_as_is(items: Seq<Option<(Seq<u8>, Seq<u8>)>>, cfg: PostprocessConfig)
    requires
        !cfg.seal_gaps || has_key(ok_attributes(items), key_stroke()),
        !is_tiny(ok_attributes(items), cfg),
    ensures
        path_output(items, cfg) == Some(path_name() + attrs_bytes(ok_attributes(items))),
{
}

/// What becomes of one `<path>` tag read from the SVG.
enum PathStep {
    /// Write this tag in its place.
    Write(BytesStart<'static>),
    /// Leave the path out.
    Skip,
}

fn is_path_name(name: &Vec<u8>) -> (r: bool)
    ensures
        r == (name@ == path_name()),
{
    let p: Vec<u8> = vec![112u8, 97u8, 116u8, 104u8];
    bytes_are(name, &p)
}

fn path_step(e: &BytesStart<'static>, cfg: &PostprocessConfig) -> (r: PathStep)
    ensures
        match path_output(attribute_items(*e), *cfg) {
            None => r is Skip,
            Some(t) => r matches PathStep::Write(w) && tag_bytes(w) == t,
        },
{
    let attrs = path_attributes(e);
    let edit = transform_path(&attrs, cfg);
    match edit {
        PathEdit::Drop => PathStep::Skip,
        _ => {
            let t = build_path_tag(&attrs, &edit);
            PathStep::Write(t)
        },
    }
}

/// Drops tiny `<path>` elements (with everything up to their end tag) and
/// seals dark ones, as the configuration asks, writing every other event back
/// as it was read. With both passes off, or when the SVG is not well-formed
/// XML, the input comes back unchanged.
pub fn postprocess(svg: &str, cfg: &PostprocessConfig) -> (r: String)
    ensures
        r@ == postprocessed(svg@, *cfg),
{
    if !cfg.seal_gaps && !cfg.strip_tiny_paths {
        return String::from_str(svg);
    }
    let ghost evs = svg_events(svg@);
    let mut reader = svg_reader(svg);
    let mut writer = new_writer();
    let mut depth: u64 = 0;
    let ghost mut i: int = 0;
    assert(evs.skip(0) =~= evs);
    assert(written(writer) + Seq::<u8>::empty() =~= Seq::<u8>::empty());
    proof {
        if let Some(r0) = render(evs, *cfg, 0) {
            assert(Seq::<u8>::empty() + r0 =~= r0);
        }
    }
    loop
        invariant_except_break
            pending_events(reader) == evs.skip(i),
        invariant
            evs == svg_events(svg@),
            evs.len() > 0,
            is_final(evs.last()),
            forall|k: int| 0 <= k < evs.len() - 1 ==> !is_final(#[trigger] evs[k]),
            0 <= i < evs.len(),
            render(evs, *cfg, 0) == prepend(written(writer), render(evs.skip(i), *cfg, depth as nat)),
        ensures
            render(evs, *cfg, 0) == Some(written(writer)),
        decreases evs.len() - i,
    {
        let ghost before = written(writer);
        let ghost d0 = depth as nat;
        let ghost e = evs[i];
        proof {
            assert(evs.skip(i)[0] == e);
            assert(evs.skip(i).drop_first() =~= evs.skip(i + 1));
            if !is_final(e) {
                assert(i < evs.len() - 1);
            }
        }
        let ev = next_event(&mut reader);
        assert(event_view(ev) == e);
        let ghost mut piece: Seq<u8> = Seq::empty();
        if let XmlEvent::Eof = ev {
            assert(render(evs.skip(i), *cfg, d0) == Some(Seq::<u8>::empty()));
            assert(before + Seq::<u8>::empty() =~= before);
            break;
        }
        if let XmlEvent::Failed = ev {
            return String::from_str(svg);
        }
        if depth > 0 {
            match ev {
                XmlEvent::Start(_) => {
                    if depth == 0xffff_ffff_ffff_ffffu64 {
                        return String::from_str(svg);
                    }
                    depth = depth + 1;
                },
                XmlEvent::End(_) => {
                    depth = depth - 1;
                },
                _ => {},
            }
            proof {
                assert(render(evs.skip(i), *cfg, d0) == render(evs.skip(i + 1), *cfg, depth as nat));
            }
        } else {
            match ev {
                XmlEvent::Empty(t) => {
                    if is_path_name(&tag_name(&t)) {
                        match path_step(&t, cfg) {
                            PathStep::Write(p) => {
                                proof {
                                    piece = tag_text(tag_bytes(p), true);
                                }
                                write_empty(&mut writer, p);
                            },
                            PathStep::Skip => {},
                        }
                    } else {
                        proof {
                            piece = tag_text(tag_bytes(t), true);
                        }
                        write_empty(&mut writer, t);
                    }
                },
                XmlEvent::Start(t) => {
                    if is_path_name(&tag_name(&t)) {
                        match path_step(&t, cfg) {
                            PathStep::Write(p) => {
                                proof {
                                    piece = tag_text(tag_bytes(p), false);
                                }
                                write_start(&mut writer, p);
                            },
                            PathStep::Skip => {
                                depth = 1;
                            },
                        }
                    } else {
                        proof {
                            piece = tag_text(tag_bytes(t), false);
                        }
                        write_start(&mut writer, t);
                    }
                },
                XmlEvent::End(o) => {
                    proof {
                        piece = event_bytes(o);
                    }
                    write_other(&mut writer, o);
                },
                XmlEvent::Other(o) => {
                    proof {
                        piece = event_bytes(o);
                    }
                    write_other(&mut writer, o);
                },
                _ => {},
            }
            proof {
                assert(written(writer) =~= before + piece);
                if depth == 0 {
                    assert(render(evs.skip(i), *cfg, 0) == prepend(piece, render(evs.skip(i + 1), *cfg, 0))) by {
                        if piece.len() == 0 {
                            assert(prepend(piece, render(evs.skip(i + 1), *cfg, 0)) == render(evs.skip(i + 1), *cfg, 0)) by {
                                if let Some(x) = render(evs.skip(i + 1), *cfg, 0) {
                                    assert(piece + x =~= x);
                                }
                            }
                        }
                    }
                    lemma_prepend_assoc(before, piece, render(evs.skip(i + 1), *cfg, 0));
                } else {
                    assert(drops_element(e, *cfg));
                    assert(render(evs.skip(i), *cfg, 0) == render(evs.skip(i + 1), *cfg, 1));
                }
            }
        }
        proof {
            i = i + 1;
        }
    }
    match utf8_string(written_bytes(writer)) {
        Some(out) => out,
        None => String::from_str(svg),
    }
}

/// The tag name `svg`.
pub open spec fn svg_name() -> Seq<u8> {
    seq![115u8, 118u8, 103u8]
}

/// The attribute key `width`.
pub open spec fn key_width() -> Seq<u8> {
    seq![119u8, 105u8, 100u8, 116u8, 104u8]
}

/// The attribute key `height`.
pub open spec fn key_height() -> Seq<u8> {
    seq![104u8, 101u8, 105u8, 103u8, 104u8, 116u8]
}

/// The attribute key `viewBox`.
pub open spec fn key_viewbox() -> Seq<u8> {
    seq![118u8, 105u8, 101u8, 119u8, 66u8, 111u8, 120u8]
}

/// One attribute of the root `<svg>` written back at display size `w` by `h`:
/// `width` and `height` get the display size, any other attribute stays.
pub open spec fn sized_attr_bytes(a: (Seq<u8>, Seq<u8>), w: u32, h: u32) -> Seq<u8> {
    if a.0 == key_width() {
        text_attr_bytes("width"@, decimal(w as nat))
    } else if a.0 == key_height() {
        text_attr_bytes("height"@, decimal(h as nat))
    } else {
        attr_bytes(a)
    }
}

/// The attributes of the root `<svg>` written back at display size `w` by `h`.
pub open spec fn sized_attrs_bytes(attrs: Seq<(Seq<u8>, Seq<u8>)>, w: u32, h: u32) -> Seq<u8>
    decreases attrs.len(),
{
    if attrs.len() == 0 {
        Seq::empty()
    } else {
        sized_attrs_bytes(attrs.drop_last(), w, h) + sized_attr_bytes(attrs.last(), w, h)
    }
}

/// The `viewBox` value of a drawing `tw` by `th` units large.
pub open spec fn view_box_text(tw: u32, th: u32) -> Seq<char> {
    "0 0 "@ + decimal(tw as nat) + " "@ + decimal(th as nat)
}

/// The root tag shown at `w` by `h` over a drawing of `tw` by `th` units:
/// `svg`, its attributes with the display size, and a `viewBox` of the
/// drawing's size unless it has one.
pub open spec fn root_tag_bytes(attrs: Seq<(Seq<u8>, Seq<u8>)>, w: u32, h: u32, tw: u32, th: u32) -> Seq<u8> {
    let base = svg_name() + sized_attrs_bytes(attrs, w, h);
    if has_key(attrs, key_viewbox()) {
        base
    } else {
        base + text_attr_bytes("viewBox"@, view_box_text(tw, th))
    }
}

/// The bytes written for a run of events when the first `svg` tag is shown
/// at another size, or `None` on a reading error. `done` says whether that
/// tag has been met.
pub open spec fn render_sized(evs: Seq<EventView>, w: u32, h: u32, tw: u32, th: u32, done: bool) -> Option<Seq<u8>>
    decreases evs.len(),
{
    if evs.len() == 0 || evs[0] is Eof {
        Some(Seq::empty())
    } else {
        match evs[0] {
            EventView::Failed => None,
            EventView::Empty { name, tag, attrs } => if !done && name == svg_name() {
                prepend(
                    tag_text(root_tag_bytes(ok_attributes(attrs), w, h, tw, th), true),
                    render_sized(evs.drop_first(), w, h, tw, th, true),
                )
            } else {
                prepend(tag_text(tag, true), render_sized(evs.drop_first(), w, h, tw, th, done))
            },
            EventView::Start { name, tag, attrs } => if !done && name == svg_name() {
                prepend(
                    tag_text(root_tag_bytes(ok_attributes(attrs), w, h, tw, th), false),
                    render_sized(evs.drop_first(), w, h, tw, th, true),
                )
            } else {
                prepend(tag_text(tag, false), render_sized(evs.drop_first(), w, h, tw, th, done))
            },
            EventView::End { bytes } => prepend(bytes, render_sized(evs.drop_first(), w, h, tw, th, done)),
            EventView::Other { bytes } => prepend(bytes, render_sized(evs.drop_first(), w, h, tw, th, done)),
            EventView::Eof => Some(Seq::empty()),
        }
    }
}

/// `svg` shown at `w` by `h`: its first `svg` tag gets that width and height
/// and a `viewBox` of the drawing's `tw` by `th` units, so the drawing scales
/// to the display size. Text that does not read as XML comes back unchanged.
pub open spec fn sized_svg(svg: Seq<char>, w: u32, h: u32, tw: u32, th: u32) -> Seq<char> {
    match render_sized(svg_events(svg), w, h, tw, th, false) {
        Some(b) => if valid_utf8(b) {
            decode_utf8(b)
        } else {
            svg
        },
        None => svg,
    }
}

fn decimal_text(n: u32) -> (s: String)
    ensures
        s@ == decimal(n as nat),
{
    string_from_chars(&decimal_chars(n as u64))
}

proof fn lemma_has_key_step(views: Seq<(Seq<u8>, Seq<u8>)>, i: int, key: Seq<u8>)
    requires
        0 <= i < views.len(),
    ensures
        has_key(views.take(i + 1), key) == (has_key(views.take(i), key) || views[i].0 == key),
{
    if views[i].0 == key {
        assert(views.take(i + 1)[i].0 == key);
    }
    if has_key(views.take(i), key) {
        let j = choose|j: int| 0 <= j < views.take(i).len() && (#[trigger] views.take(i)[j]).0 == key;
        assert(views.take(i + 1)[j] == views.take(i)[j]);
    }
    if has_key(views.take(i + 1), key) {
        let j = choose|j: int| 0 <= j < views.take(i + 1).len() && (#[trigger] views.take(i + 1)[j]).0 == key;
        if j < i {
            assert(views.take(i + 1)[j] == views.take(i)[j]);
        }
    }
}

proof fn lemma_sized_attrs_step(views: Seq<(Seq<u8>, Seq<u8>)>, i: int, w: u32, h: u32)
    requires
        0 <= i < views.len(),
    ensures
        sized_attrs_bytes(views.take(i + 1), w, h) == sized_attrs_bytes(views.take(i), w, h)
            + sized_attr_bytes(views[i], w, h),
{
    assert(views.take(i + 1).drop_last() =~= views.take(i));
    assert(views.take(i + 1).last() == views[i]);
}

/// Appends one attribute of the root tag at display size: `width` and
/// `height` take `dw` and `dh`, any other attribute is copied.
fn push_sized_attr(t: &mut BytesStart<'static>, a: &RawAttr, dw: &String, dh: &String, w: Ghost<u32>, h: Ghost<u32>)
    requires
        dw@ == decimal(w@ as nat),
        dh@ == decimal(h@ as nat),
    ensures
        tag_bytes(*final(t)) == tag_bytes(*old(t)) + sized_attr_bytes(a@, w@, h@),
{
    let kw: Vec<u8> = vec![119u8, 105u8, 100u8, 116u8, 104u8];
    let kh: Vec<u8> = vec![104u8, 101u8, 105u8, 103u8, 104u8, 116u8];
    if bytes_are(&a.key, &kw) {
        push_text_attribute(t, "width", dw.as_str());
    } else if bytes_are(&a.key, &kh) {
        push_text_attribute(t, "height", dh.as_str());
    } else {
        push_raw_attribute(t, a.key.as_slice(), a.value.as_slice());
        assert(tag_bytes(*t) =~= tag_bytes(*old(t)) + attr_bytes(a@));
    }
}

/// The root tag rewritten for display at `w` by `h` over `tw` by `th` units.
fn sized_root_tag(t: &mut BytesStart<'static>, w: u32, h: u32, tw: u32, th: u32)
    requires
        tag_name_of(*old(t)) == svg_name(),
    ensures
        tag_bytes(*final(t)) == root_tag_bytes(ok_attributes(attribute_items(*old(t))), w, h, tw, th),
{
    let attrs = path_attributes(t);
    let ghost views = attr_views(attrs@);
    let kv: Vec<u8> = vec![118u8, 105u8, 101u8, 119u8, 66u8, 111u8, 120u8];
    let dw = decimal_text(w);
    let dh = decimal_text(h);
    clear_attributes(t);
    let mut has_view_box = false;
    for i in 0..attrs.len()
        invariant
            views == attr_views(attrs@),
            kv@ == key_viewbox(),
            dw@ == decimal(w as nat),
            dh@ == decimal(h as nat),
            tag_bytes(*t) == svg_name() + sized_attrs_bytes(views.take(i as int), w, h),
            has_view_box == has_key(views.take(i as int), key_viewbox()),
    {
        let a = &attrs[i];
        let ghost before = tag_bytes(*t);
        push_sized_attr(t, a, &dw, &dh, Ghost(w), Ghost(h));
        proof {
            assert(views[i as int] == a@);
            lemma_sized_attrs_step(views, i as int, w, h);
            assert(tag_bytes(*t) =~= svg_name() + sized_attrs_bytes(views.take(i + 1), w, h));
            lemma_has_key_step(views, i as int, key_viewbox());
        }
        if bytes_are(&a.key, &kv) {
            has_view_box = true;
        }
    }
    assert(views.take(attrs.len() as int) =~= views);
    if !has_view_box {
        let mut vb = String::from_str("0 0 ");
        let dtw = decimal_text(tw);
        let dth = decimal_text(th);
        vb.append(dtw.as_str());
        vb.append(" ");
        vb.append(dth.as_str());
        let ghost before = tag_bytes(*t);
        push_text_attribute(t, "viewBox", vb.as_str());
        assert(vb@ =~= view_box_text(tw, th));
        assert(tag_bytes(*t) =~= before + text_attr_bytes("viewBox"@, view_box_text(tw, th)));
    }
}

/// Shows an SVG at `w` by `h`: its first `svg` tag gets that width and
/// height and a `viewBox` of the drawing's `tw` by `th` units, so a drawing
/// traced at a larger size scales back down. Every other event is written
/// back as it was read; text that does not read as XML comes back unchanged.
pub fn size_svg(svg: &str, w: u32, h: u32, tw: u32, th: u32) -> (r: String)
    ensures
        r@ == sized_svg(svg@, w, h, tw, th),
{
    let ghost evs = svg_events(svg@);
    let mut reader = svg_reader(svg);
    let mut writer = new_writer();
    let mut done = false;
    let ghost mut i: int = 0;
    assert(evs.skip(0) =~= evs);
    assert(written(writer) + Seq::<u8>::empty() =~= Seq::<u8>::empty());
    proof {
        if let Some(r0) = render_sized(evs, w, h, tw, th, false) {
            assert(Seq::<u8>::empty() + r0 =~= r0);
        }
    }
    loop
        invariant_except_break
            pending_events(reader) == evs.skip(i),
        invariant
            evs == svg_events(svg@),
            evs.len() > 0,
            is_final(evs.last()),
            forall|k: int| 0 <= k < evs.len() - 1 ==> !is_final(#[trigger] evs[k]),
            0 <= i < evs.len(),
            render_sized(evs, w, h, tw, th, false) == prepend(
                written(writer),
                render_sized(evs.skip(i), w, h, tw, th, done),
            ),
        ensures
            render_sized(evs, w, h, tw, th, false) == Some(written(writer)),
        decreases evs.len() - i,
    {
        let ghost before = written(writer);
        let ghost d0 = done;
        let ghost e = evs[i];
        proof {
            assert(evs.skip(i)[0] == e);
            assert(evs.skip(i).drop_first() =~= evs.skip(i + 1));
            if !is_final(e) {
                assert(i < evs.len() - 1);
            }
        }
        let ev = next_event(&mut reader);
        assert(event_view(ev) == e);
        let ghost mut piece: Seq<u8> = Seq::empty();
        match ev {
            XmlEvent::Eof => {
                assert(render_sized(evs.skip(i), w, h, tw, th, d0) == Some(Seq::<u8>::empty()));
                assert(before + Seq::<u8>::empty() =~= before);
                break;
            },
            XmlEvent::Failed => {
                return String::from_str(svg);
            },
            XmlEvent::Empty(t) => {
                let mut t = t;
                if !done && is_path_svg(&tag_name(&t)) {
                    sized_root_tag(&mut t, w, h, tw, th);
                    done = true;
                }
                proof {
                    piece = tag_text(tag_bytes(t), true);
                }
                write_empty(&mut writer, t);
            },
            XmlEvent::Start(t) => {
                let mut t = t;
                if !done && is_path_svg(&tag_name(&t)) {
                    sized_root_tag(&mut t, w, h, tw, th);
                    done = true;
                }
                proof {
                    piece = tag_text(tag_bytes(t), false);
                }
                write_start(&mut writer, t);
            },
            XmlEvent::End(o) => {
                proof {
                    piece = event_bytes(o);
                }
                write_other(&mut writer, o);
            },
            XmlEvent::Other(o) => {
                proof {
                    piece = event_bytes(o);
                }
                write_other(&mut writer, o);
            },
        }
        proof {
            assert(written(writer) =~= before + piece);
            assert(render_sized(evs.skip(i), w, h, tw, th, d0) == prepend(
                piece,
                render_sized(evs.skip(i + 1), w, h, tw, th, done),
            ));
            lemma_prepend_assoc(before, piece, render_sized(evs.skip(i + 1), w, h, tw, th, done));
            i = i + 1;
        }
    }
    match utf8_string(written_bytes(writer)) {
        Some(out) => out,
        None => String::from_str(svg),
    }
}

fn is_path_svg(name: &Vec<u8>) -> (r: bool)
    ensures
        r == (name@ == svg_name()),
{
    let p: Vec<u8> = vec![115u8, 118u8, 103u8];
    bytes_are(name, &p)
}

proof fn lemma_prepend_assoc(a: Seq<u8>, b: Seq<u8>, rest: Option<Seq<u8>>)
    ensures
        prepend(a, prepend(b, rest)) == prepend(a + b, rest),
{
    if let Some(r) = rest {
        assert(a + (b + r) =~= (a + b) + r);
    }
}

} // verus!
