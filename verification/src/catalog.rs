//! The effect catalog as JSON: an array of `{name, about}` objects.

use vstd::prelude::*;
use crate::utils::text::{char_is_control, is_control_code};

verus! {

/// Lower-case hexadecimal digits.
pub const HEX_DIGITS: [char; 16] = [
    '0', '1', '2', '3', '4', '5', '6', '7', '8', '9', 'a', 'b', 'c', 'd', 'e', 'f',
];

/// Four lower-case hexadecimal digits of `v` (below 0x10000), as `{:04x}`
/// writes them.
pub open spec fn hex4(v: int) -> Seq<char> {
    seq![
        HEX_DIGITS@[(v / 4096) % 16],
        HEX_DIGITS@[(v / 256) % 16],
        HEX_DIGITS@[(v / 16) % 16],
        HEX_DIGITS@[v % 16],
    ]
}

/// How one character stands inside a JSON string literal: quote and
/// backslash escaped, newline, carriage return and tab by their letters,
/// other control codes as `\u` and four hex digits, the rest as they are.
pub open spec fn json_escape_char(c: char) -> Seq<char> {
    if c == '"' {
        seq!['\\', '"']
    } else if c == '\\' {
        seq!['\\', '\\']
    } else if c == '\n' {
        seq!['\\', 'n']
    } else if c == '\r' {
        seq!['\\', 'r']
    } else if c == '\t' {
        seq!['\\', 't']
    } else if is_control_code(c) {
        seq!['\\', 'u'] + hex4(c as int)
    } else {
        seq![c]
    }
}

/// The characters of `s`, each escaped for a JSON string literal.
pub open spec fn json_escape(s: Seq<char>) -> Seq<char>
    decreases s.len(),
{
    if s.len() == 0 {
        Seq::empty()
    } else {
        json_escape(s.drop_last()) + json_escape_char(s.last())
    }
}

/// `s` as a JSON string literal, quotes included.
pub open spec fn json_quoted(s: Seq<char>) -> Seq<char> {
    seq!['"'] + json_escape(s) + seq!['"']
}

/// Value of a hexadecimal digit of either case; `None` for any other
/// character.
pub open spec fn hex_value(c: char) -> Option<int> {
    let v = c as int;
    if 0x30 <= v <= 0x39 {
        Some(v - 0x30)
    } else if 0x61 <= v <= 0x66 {
        Some(v - 0x61 + 10)
    } else if 0x41 <= v <= 0x46 {
        Some(v - 0x41 + 10)
    } else {
        None
    }
}

/// Value of the four hexadecimal digits at the start of `t`.
pub open spec fn hex4_value(t: Seq<char>) -> Option<int> {
    if t.len() >= 4 && hex_value(t[0]) is Some && hex_value(t[1]) is Some && hex_value(t[2]) is Some
        && hex_value(t[3]) is Some {
        Some(
            4096 * hex_value(t[0])->0 + 256 * hex_value(t[1])->0 + 16 * hex_value(t[2])->0
                + hex_value(t[3])->0,
        )
    } else {
        None
    }
}

/// The character a JSON escape sequence at the start of `t` (which starts
/// with a backslash) stands for, and how many characters the sequence
/// takes: one of the two-character escapes, `\u` with four hex digits of a
/// code point outside the surrogates, or two such escapes of a surrogate
/// pair. `None` for anything else.
pub open spec fn json_escape_at(t: Seq<char>) -> Option<(char, int)> {
    if t.len() < 2 {
        None
    } else if t[1] == '"' {
        Some(('"', 2))
    } else if t[1] == '\\' {
        Some(('\\', 2))
    } else if t[1] == '/' {
        Some(('/', 2))
    } else if t[1] == 'b' {
        Some(('\u{8}', 2))
    } else if t[1] == 'f' {
        Some(('\u{c}', 2))
    } else if t[1] == 'n' {
        Some(('\n', 2))
    } else if t[1] == 'r' {
        Some(('\r', 2))
    } else if t[1] == 't' {
        Some(('\t', 2))
    } else if t[1] == 'u' && hex4_value(t.skip(2)) is Some {
        let v = hex4_value(t.skip(2))->0;
        if v < 0xd800 || v > 0xdfff {
            Some((v as char, 6))
        } else if v <= 0xdbff && t.len() >= 12 && t[6] == '\\' && t[7] == 'u' && hex4_value(
            t.skip(8),
        ) is Some && 0xdc00 <= hex4_value(t.skip(8))->0 <= 0xdfff {
            Some(((0x10000 + (v - 0xd800) * 1024 + (hex4_value(t.skip(8))->0 - 0xdc00)) as char, 12))
        } else {
            None
        }
    } else {
        None
    }
}

/// Reads the rest of a JSON string literal, after its opening quote, from
/// the start of `t`: the characters it stands for, and how many characters
/// of `t` it takes with its closing quote. `None` when `t` does not start
/// with such a rest (an unknown escape, a raw control code below U+0020,
/// or no closing quote).
pub open spec fn json_string_rest(t: Seq<char>) -> Option<(Seq<char>, int)>
    decreases t.len(),
{
    if t.len() == 0 {
        None
    } else if t[0] == '"' {
        Some((Seq::empty(), 1))
    } else if t[0] == '\\' {
        match json_escape_at(t) {
            Some((c, k)) => if 0 < k <= t.len() {
                match json_string_rest(t.skip(k)) {
                    Some((rest, m)) => Some((seq![c] + rest, k + m)),
                    None => None,
                }
            } else {
                None
            },
            None => None,
        }
    } else if (t[0] as int) < 0x20 {
        None
    } else {
        match json_string_rest(t.skip(1)) {
            Some((rest, m)) => Some((seq![t[0]] + rest, 1 + m)),
            None => None,
        }
    }
}

/// Reads a JSON string literal at the start of `t`: the characters it
/// stands for, and how many characters of `t` it takes, quotes included.
pub open spec fn json_string_literal(t: Seq<char>) -> Option<(Seq<char>, int)> {
    if t.len() > 0 && t[0] == '"' {
        match json_string_rest(t.skip(1)) {
            Some((value, m)) => Some((value, m + 1)),
            None => None,
        }
    } else {
        None
    }
}

/// Escaping one character more in front escapes it in front.
proof fn lemma_json_escape_cons(c: char, s: Seq<char>)
    ensures
        json_escape(seq![c] + s) == json_escape_char(c) + json_escape(s),
    decreases s.len(),
{
    if s.len() == 0 {
        let one = seq![c];
        assert(seq![c] + s =~= one);
        assert(one.drop_last() =~= Seq::<char>::empty());
        assert(json_escape(Seq::<char>::empty()) == Seq::<char>::empty());
        assert(json_escape(one) == json_escape(one.drop_last()) + json_escape_char(one.last()));
        assert(json_escape(one) =~= json_escape_char(c));
        assert(json_escape_char(c) + json_escape(s) =~= json_escape_char(c));
    } else {
        lemma_json_escape_cons(c, s.drop_last());
        assert((seq![c] + s).drop_last() =~= seq![c] + s.drop_last());
        assert((seq![c] + s).last() == s.last());
        assert(json_escape(seq![c] + s) =~= json_escape_char(c) + json_escape(s));
    }
}

/// The hex digit table reads back as its index.
proof fn lemma_hex_digit_value(d: int)
    requires
        0 <= d < 16,
    ensures
        hex_value(HEX_DIGITS@[d]) == Some(d),
{
    assert(HEX_DIGITS@ =~= seq![
        '0', '1', '2', '3', '4', '5', '6', '7', '8', '9', 'a', 'b', 'c', 'd', 'e', 'f',
    ]);
}

/// The escape written for a character reads back as that character.
proof fn lemma_escape_char_reads_back(c: char, rest: Seq<char>)
    requires
        json_escape_char(c).len() > 1,
    ensures
        json_escape_char(c)[0] == '\\',
        json_escape_at(json_escape_char(c) + rest) == Some((c, json_escape_char(c).len() as int)),
{
    let t = json_escape_char(c) + rest;
    if is_control_code(c) && c != '\n' && c != '\r' && c != '\t' {
        let v = c as int;
        lemma_hex_digit_value((v / 4096) % 16);
        lemma_hex_digit_value((v / 256) % 16);
        lemma_hex_digit_value((v / 16) % 16);
        lemma_hex_digit_value(v % 16);
        assert(t.skip(2)[0] == HEX_DIGITS@[(v / 4096) % 16]);
        assert(t.skip(2)[1] == HEX_DIGITS@[(v / 256) % 16]);
        assert(t.skip(2)[2] == HEX_DIGITS@[(v / 16) % 16]);
        assert(t.skip(2)[3] == HEX_DIGITS@[v % 16]);
        assert(hex4_value(t.skip(2)) == Some(v));
        assert((v as char) == c);
    }
}

/// Reading one escaped character in front of text that reads back as
/// `rest` reads back as that character followed by `rest`.
proof fn lemma_json_rest_step(c: char, u: Seq<char>)
    ensures
        json_string_rest(u) matches Some((rest, m)) ==> json_string_rest(json_escape_char(c) + u)
            == Some((seq![c] + rest, json_escape_char(c).len() + m)),
{
    let e = json_escape_char(c);
    let t = e + u;
    assert(t.skip(e.len() as int) =~= u);
    if e.len() > 1 {
        lemma_escape_char_reads_back(c, u);
        assert(t[0] == '\\');
    } else {
        assert(e =~= seq![c]);
        assert(t[0] == c);
        assert(c != '"' && c != '\\' && (c as int) >= 0x20);
    }
}

/// The escaped characters of `s`, then a quote, read back as `s`, whatever
/// follows.
proof fn lemma_json_escape_reads_back(s: Seq<char>, after: Seq<char>)
    ensures
        json_string_rest(json_escape(s) + seq!['"'] + after) == Some(
            (s, json_escape(s).len() + 1int),
        ),
    decreases s.len(),
{
    let t = json_escape(s) + seq!['"'] + after;
    if s.len() == 0 {
        assert(json_escape(s) =~= Seq::<char>::empty());
        assert(t[0] == '"');
        assert(s =~= Seq::<char>::empty());
    } else {
        let c = s[0];
        let tail = s.skip(1);
        assert(s =~= seq![c] + tail);
        lemma_json_escape_cons(c, tail);
        lemma_json_escape_reads_back(tail, after);
        let u = json_escape(tail) + seq!['"'] + after;
        assert(t =~= json_escape_char(c) + u);
        lemma_json_rest_step(c, u);
    }
}

/// What `json_string` appends is one JSON string literal, and it reads
/// back as exactly the value it was made from, whatever follows it.
pub proof fn lemma_json_string_reads_back(value: Seq<char>, after: Seq<char>)
    ensures
        json_string_literal(json_quoted(value) + after) == Some(
            (value, json_quoted(value).len() as int),
        ),
{
    let t = json_quoted(value) + after;
    lemma_json_escape_reads_back(value, after);
    assert(t.skip(1) =~= json_escape(value) + seq!['"'] + after);
}

/// Calls `String::push`, which appends one character.
#[verifier::external_body]
fn push_char(out: &mut String, c: char)
    ensures
        final(out)@ == old(out)@.push(c),
{
    out.push(c);
}

/// Appends `c` escaped for a JSON string literal.
fn push_escaped(out: &mut String, c: char)
    ensures
        final(out)@ == old(out)@ + json_escape_char(c),
{
    if c == '"' {
        push_char(out, '\\');
        push_char(out, '"');
    } else if c == '\\' {
        push_char(out, '\\');
        push_char(out, '\\');
    } else if c == '\n' {
        push_char(out, '\\');
        push_char(out, 'n');
    } else if c == '\r' {
        push_char(out, '\\');
        push_char(out, 'r');
    } else if c == '\t' {
        push_char(out, '\\');
        push_char(out, 't');
    } else if char_is_control(c) {
        let code = c as u32;
        let digits = HEX_DIGITS;
        push_char(out, '\\');
        push_char(out, 'u');
        push_char(out, digits[((code / 4096) % 16) as usize]);
        push_char(out, digits[((code / 256) % 16) as usize]);
        push_char(out, digits[((code / 16) % 16) as usize]);
        push_char(out, digits[(code % 16) as usize]);
    } else {
        push_char(out, c);
    }
}

/// Appends `value` to `out` as a JSON string literal.
pub fn json_string(out: &mut String, value: &str)
    ensures
        final(out)@ == old(out)@ + json_quoted(value@),
{
    let ghost start = out@;
    push_char(out, '"');
    for c in it: value.chars()
        invariant
            it.seq() == value@,
            out@ == start.push('"') + json_escape(value@.take(it.index())),
    {
        proof {
            assert(value@.take(it.index() + 1).drop_last() =~= value@.take(it.index()));
        }
        push_escaped(out, c);
    }
    proof {
        assert(value@.take(value@.len() as int) =~= value@);
    }
    push_char(out, '"');
    proof {
        assert(out@ =~= start + json_quoted(value@));
    }
}

/// One effect of the catalog: its command name and its one-line
/// description.
pub struct CatalogEntry {
    pub name: String,
    pub about: String,
}

/// One entry as a JSON object: `{"name":..., "about":...}`.
pub open spec fn entry_json(name: Seq<char>, about: Seq<char>) -> Seq<char> {
    seq!['{'] + json_quoted("name"@) + seq![':'] + json_quoted(name) + seq![','] + json_quoted(
        "about"@,
    ) + seq![':'] + json_quoted(about) + seq!['}']
}

/// The entries as JSON objects, separated by commas.
pub open spec fn entries_json(entries: Seq<CatalogEntry>) -> Seq<char>
    decreases entries.len(),
{
    if entries.len() == 0 {
        Seq::empty()
    } else {
        let before = entries_json(entries.drop_last());
        let separator = if entries.len() > 1 {
            seq![',']
        } else {
            Seq::empty()
        };
        before + separator + entry_json(entries.last().name@, entries.last().about@)
    }
}

/// The whole catalog: a JSON array of the entries' objects, in order.
pub open spec fn catalog_json(entries: Seq<CatalogEntry>) -> Seq<char> {
    seq!['['] + entries_json(entries) + seq![']']
}

/// Appends one entry's object.
fn push_entry(out: &mut String, entry: &CatalogEntry)
    ensures
        final(out)@ == old(out)@ + entry_json(entry.name@, entry.about@),
{
    let ghost s0 = out@;
    let ghost name = json_quoted("name"@);
    let ghost about = json_quoted("about"@);
    let ghost v1 = json_quoted(entry.name@);
    let ghost v2 = json_quoted(entry.about@);
    push_char(out, '{');
    json_string(out, "name");
    assert(out@ =~= s0 + (seq!['{'] + name));
    push_char(out, ':');
    assert(out@ =~= s0 + (seq!['{'] + name + seq![':']));
    json_string(out, entry.name.as_str());
    assert(out@ =~= s0 + (seq!['{'] + name + seq![':'] + v1));
    push_char(out, ',');
    assert(out@ =~= s0 + (seq!['{'] + name + seq![':'] + v1 + seq![',']));
    json_string(out, "about");
    assert(out@ =~= s0 + (seq!['{'] + name + seq![':'] + v1 + seq![','] + about));
    push_char(out, ':');
    assert(out@ =~= s0 + (seq!['{'] + name + seq![':'] + v1 + seq![','] + about + seq![':']));
    json_string(out, entry.about.as_str());
    assert(out@ =~= s0 + (seq!['{'] + name + seq![':'] + v1 + seq![','] + about + seq![':'] + v2));
    push_char(out, '}');
    assert(out@ =~= s0 + (seq!['{'] + name + seq![':'] + v1 + seq![','] + about + seq![':'] + v2
        + seq!['}']));
}

/// JSON array of `{name, about}` for every entry, in order.
pub fn effect_catalog_json(entries: &Vec<CatalogEntry>) -> (json: String)
    ensures
        json@ == catalog_json(entries@),
{
    let mut out = String::new();
    push_char(&mut out, '[');
    let n = entries.len();
    let mut i: usize = 0;
    while i < n
        invariant
            n == entries@.len(),
            i <= n,
            out@ == seq!['['] + entries_json(entries@.take(i as int)),
        decreases n - i,
    {
        proof {
            assert(entries@.take(i + 1).drop_last() =~= entries@.take(i as int));
        }
        if i > 0 {
            push_char(&mut out, ',');
        }
        push_entry(&mut out, &entries[i]);
        proof {
            assert(out@ =~= seq!['['] + entries_json(entries@.take(i + 1)));
        }
        i = i + 1;
    }
    proof {
        assert(entries@.take(n as int) =~= entries@);
    }
    push_char(&mut out, ']');
    out
}

/// Reads an object member at the start of `t`: a string literal key, a
/// colon and a string literal value; gives the key, the value and how many
/// characters the member takes.
#[verifier::opaque]
pub open spec fn json_member_at(t: Seq<char>) -> Option<((Seq<char>, Seq<char>), int)> {
    match json_string_literal(t) {
        Some((key, a)) => if 0 < a < t.len() && t[a] == ':' {
            match json_string_literal(t.skip(a + 1)) {
                Some((value, b)) => Some(((key, value), a + 1 + b)),
                None => None,
            }
        } else {
            None
        },
        None => None,
    }
}

/// Reads what follows a member inside an object: more members, each after
/// a comma, up to the closing brace.
#[verifier::opaque]
pub open spec fn json_members_after(t: Seq<char>) -> Option<(Seq<(Seq<char>, Seq<char>)>, int)>
    decreases t.len(),
{
    if t.len() == 0 {
        None
    } else if t[0] == '}' {
        Some((Seq::empty(), 1))
    } else if t[0] == ',' {
        match json_member_at(t.skip(1)) {
            Some((member, a)) => if 0 < a && 1 + a <= t.len() {
                match json_members_after(t.skip(1 + a)) {
                    Some((members, b)) => Some((seq![member] + members, 1 + a + b)),
                    None => None,
                }
            } else {
                None
            },
            None => None,
        }
    } else {
        None
    }
}

/// Reads a JSON object whose values are all strings at the start of `t`:
/// its members in order, and how many characters it takes.
#[verifier::opaque]
pub open spec fn json_object_at(t: Seq<char>) -> Option<(Seq<(Seq<char>, Seq<char>)>, int)> {
    if t.len() >= 2 && t[0] == '{' && t[1] == '}' {
        Some((Seq::empty(), 2))
    } else if t.len() > 0 && t[0] == '{' {
        match json_member_at(t.skip(1)) {
            Some((member, a)) => if 0 < a && 1 + a <= t.len() {
                match json_members_after(t.skip(1 + a)) {
                    Some((members, b)) => Some((seq![member] + members, 1 + a + b)),
                    None => None,
                }
            } else {
                None
            },
            None => None,
        }
    } else {
        None
    }
}

/// Reads what follows an object inside an array: more objects, each after
/// a comma, up to the closing bracket.
#[verifier::opaque]
pub open spec fn json_objects_after(t: Seq<char>) -> Option<
    (Seq<Seq<(Seq<char>, Seq<char>)>>, int),
>
    decreases t.len(),
{
    if t.len() == 0 {
        None
    } else if t[0] == ']' {
        Some((Seq::empty(), 1))
    } else if t[0] == ',' {
        match json_object_at(t.skip(1)) {
            Some((object, a)) => if 0 < a && 1 + a <= t.len() {
                match json_objects_after(t.skip(1 + a)) {
                    Some((objects, b)) => Some((seq![object] + objects, 1 + a + b)),
                    None => None,
                }
            } else {
                None
            },
            None => None,
        }
    } else {
        None
    }
}

/// Reads a JSON array of such objects at the start of `t`: its objects in
/// order, and how many characters it takes.
#[verifier::opaque]
pub open spec fn json_object_array_at(t: Seq<char>) -> Option<
    (Seq<Seq<(Seq<char>, Seq<char>)>>, int),
> {
    if t.len() >= 2 && t[0] == '[' && t[1] == ']' {
        Some((Seq::empty(), 2))
    } else if t.len() > 0 && t[0] == '[' {
        match json_object_at(t.skip(1)) {
            Some((object, a)) => if 0 < a && 1 + a <= t.len() {
                match json_objects_after(t.skip(1 + a)) {
                    Some((objects, b)) => Some((seq![object] + objects, 1 + a + b)),
                    None => None,
                }
            } else {
                None
            },
            None => None,
        }
    } else {
        None
    }
}

/// The members an entry's object holds: `name` and then `about`.
pub open spec fn entry_members(entry: CatalogEntry) -> Seq<(Seq<char>, Seq<char>)> {
    seq![("name"@, entry.name@), ("about"@, entry.about@)]
}

/// The entries after the first, each after a comma.
pub open spec fn entries_json_after(entries: Seq<CatalogEntry>) -> Seq<char> {
    if entries.len() == 0 {
        Seq::empty()
    } else {
        seq![','] + entries_json(entries)
    }
}

/// The objects of the entries, written front to back.
proof fn lemma_entries_json_cons(entry: CatalogEntry, rest: Seq<CatalogEntry>)
    ensures
        entries_json(seq![entry] + rest) == entry_json(entry.name@, entry.about@)
            + entries_json_after(rest),
    decreases rest.len(),
{
    let all = seq![entry] + rest;
    if rest.len() == 0 {
        assert(all =~= seq![entry]);
        assert(all.drop_last() =~= Seq::<CatalogEntry>::empty());
        assert(entries_json(Seq::<CatalogEntry>::empty()) == Seq::<char>::empty());
        assert(all.last() == entry);
        assert(entries_json(all) =~= entry_json(entry.name@, entry.about@));
        assert(entries_json_after(rest) =~= Seq::<char>::empty());
        assert(entries_json(all) =~= entry_json(entry.name@, entry.about@)
            + entries_json_after(rest));
    } else {
        let shorter = rest.drop_last();
        lemma_entries_json_cons(entry, shorter);
        assert(all.drop_last() =~= seq![entry] + shorter);
        assert(all.last() == rest.last());
        if shorter.len() == 0 {
            assert(rest.drop_last() =~= Seq::<CatalogEntry>::empty());
            assert(entries_json(rest) =~= entry_json(rest.last().name@, rest.last().about@));
        }
        assert(entries_json(all) =~= entry_json(entry.name@, entry.about@)
            + entries_json_after(rest));
    }
}

/// A member written as key, colon and value reads back as that pair.
proof fn lemma_member_reads_back(key: Seq<char>, value: Seq<char>, after: Seq<char>)
    ensures
        json_member_at(json_quoted(key) + seq![':'] + json_quoted(value) + after) == Some(
            ((key, value), json_quoted(key).len() + 1int + json_quoted(value).len()),
        ),
{
    reveal(json_member_at);
    let t = json_quoted(key) + seq![':'] + json_quoted(value) + after;
    let a = json_quoted(key).len() as int;
    lemma_json_string_reads_back(key, seq![':'] + json_quoted(value) + after);
    assert(t =~= json_quoted(key) + (seq![':'] + json_quoted(value) + after));
    assert(t[a] == ':');
    lemma_json_string_reads_back(value, after);
    assert(t.skip(a + 1) =~= json_quoted(value) + after);
}

/// An entry's object reads back as its two members.
proof fn lemma_entry_reads_back(entry: CatalogEntry, after: Seq<char>)
    ensures
        json_object_at(entry_json(entry.name@, entry.about@) + after) == Some(
            (entry_members(entry), entry_json(entry.name@, entry.about@).len() as int),
        ),
{
    reveal(json_object_at);
    reveal_with_fuel(json_members_after, 1);
    let first = json_quoted("name"@) + seq![':'] + json_quoted(entry.name@);
    let second = json_quoted("about"@) + seq![':'] + json_quoted(entry.about@);
    let t = entry_json(entry.name@, entry.about@) + after;
    assert(entry_json(entry.name@, entry.about@) =~= seq!['{'] + first + seq![','] + second
        + seq!['}']);
    let u = seq![','] + second + seq!['}'] + after;
    assert(t.skip(1) =~= first + u);
    lemma_member_reads_back("name"@, entry.name@, u);
    assert(json_quoted("name"@) + seq![':'] + json_quoted(entry.name@) + u =~= first + u);
    assert(t[1] == '"');
    let a = first.len() as int;
    assert(t.skip(1 + a) =~= u);
    let v = seq!['}'] + after;
    lemma_member_reads_back("about"@, entry.about@, v);
    assert(u.skip(1) =~= json_quoted("about"@) + seq![':'] + json_quoted(entry.about@) + v);
    let b = second.len() as int;
    assert(u.skip(1 + b) =~= v);
    assert(json_members_after(v) == Some((Seq::<(Seq<char>, Seq<char>)>::empty(), 1int)));
    assert(json_members_after(u) == Some((seq![("about"@, entry.about@)], 2 + b)));
    assert(seq![("name"@, entry.name@)] + seq![("about"@, entry.about@)] =~= entry_members(entry));
}

/// The entries after the first, then the closing bracket, read back as
/// their objects.
proof fn lemma_entries_after_read_back(rest: Seq<CatalogEntry>, after: Seq<char>)
    ensures
        json_objects_after(entries_json_after(rest) + seq![']'] + after) == Some(
            (
                rest.map_values(|e: CatalogEntry| entry_members(e)),
                entries_json_after(rest).len() + 1int,
            ),
        ),
    decreases rest.len(),
{
    reveal_with_fuel(json_objects_after, 1);
    let t = entries_json_after(rest) + seq![']'] + after;
    if rest.len() == 0 {
        assert(t[0] == ']');
        assert(rest.map_values(|e: CatalogEntry| entry_members(e)) =~= Seq::<
            Seq<(Seq<char>, Seq<char>)>,
        >::empty());
    } else {
        let entry = rest[0];
        let tail = rest.skip(1);
        assert(rest =~= seq![entry] + tail);
        lemma_entries_json_cons(entry, tail);
        lemma_entries_after_read_back(tail, after);
        let e = entry_json(entry.name@, entry.about@);
        let u = entries_json_after(tail) + seq![']'] + after;
        assert(t =~= seq![','] + e + u);
        assert(t.skip(1) =~= e + u);
        lemma_entry_reads_back(entry, u);
        assert(t.skip(1 + e.len() as int) =~= u);
        assert(rest.map_values(|e: CatalogEntry| entry_members(e)) =~= seq![entry_members(entry)]
            + tail.map_values(|e: CatalogEntry| entry_members(e)));
    }
}

/// The catalog text is one JSON array that reads back, object by object
/// and in order, as each entry's `name` and `about` members with exactly
/// the entry's values, and nothing follows it.
pub proof fn lemma_catalog_reads_back(entries: Seq<CatalogEntry>)
    ensures
        json_object_array_at(catalog_json(entries)) == Some(
            (
                entries.map_values(|e: CatalogEntry| entry_members(e)),
                catalog_json(entries).len() as int,
            ),
        ),
{
    reveal(json_object_array_at);
    let t = catalog_json(entries);
    if entries.len() == 0 {
        assert(entries_json(entries) =~= Seq::<char>::empty());
        assert(t =~= seq!['[', ']']);
        assert(entries.map_values(|e: CatalogEntry| entry_members(e)) =~= Seq::<
            Seq<(Seq<char>, Seq<char>)>,
        >::empty());
    } else {
        let entry = entries[0];
        let tail = entries.skip(1);
        assert(entries =~= seq![entry] + tail);
        lemma_entries_json_cons(entry, tail);
        let e = entry_json(entry.name@, entry.about@);
        let u = entries_json_after(tail) + seq![']'];
        assert(t =~= seq!['['] + e + u);
        assert(t.skip(1) =~= e + u);
        lemma_entry_reads_back(entry, u);
        assert(e[0] == '{');
        assert(t[1] == '{');
        lemma_entries_after_read_back(tail, Seq::<char>::empty());
        assert(u =~= entries_json_after(tail) + seq![']'] + Seq::<char>::empty());
        assert(t.skip(1 + e.len() as int) =~= u);
        assert(entries.map_values(|e: CatalogEntry| entry_members(e)) =~= seq![
            entry_members(entry),
        ] + tail.map_values(|e: CatalogEntry| entry_members(e)));
    }
}

} // verus!
