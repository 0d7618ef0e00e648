//! Serializing a card collection to JSON text: a compact form for the
//! backing store, and a pretty-printed form for display and clipboard
//! export. What either form holds is written out as spec functions over
//! character sequences, and the builders are proved to produce exactly
//! that.

use vstd::prelude::*;

use crate::card::{Card, CardView};
use crate::json::{is_ws, skip_ws, views_of};

verus! {

/// The serialized name of the prompt member.
pub open spec fn key_prompt() -> Seq<char> {
    seq!['p', 'r', 'o', 'm', 'p', 't']
}

pub open spec fn key_response() -> Seq<char> {
    seq!['r', 'e', 's', 'p', 'o', 'n', 's', 'e']
}

pub open spec fn key_hits() -> Seq<char> {
    seq!['h', 'i', 't', 's']
}

pub open spec fn key_misses() -> Seq<char> {
    seq!['m', 'i', 's', 's', 'e', 's']
}

pub open spec fn key_reverse_hits() -> Seq<char> {
    seq!['r', 'e', 'v', 'e', 'r', 's', 'e', '_', 'h', 'i', 't', 's']
}

pub open spec fn key_reverse_misses() -> Seq<char> {
    seq!['r', 'e', 'v', 'e', 'r', 's', 'e', '_', 'm', 'i', 's', 's', 'e', 's']
}

/// A lowercase hexadecimal digit.
pub open spec fn hex_digit_char(v: u32) -> char {
    if v < 10 {
        (0x30 + v) as char
    } else {
        (0x61 + v - 10) as char
    }
}

/// How one character is written inside a string: quote and backslash are
/// escaped, control characters take their short escape or `\u00XX`, and
/// everything else stands as itself.
pub open spec fn escape_char(c: char) -> Seq<char> {
    if c == '"' {
        seq!['\\', '"']
    } else if c == '\\' {
        seq!['\\', '\\']
    } else if c == '\u{8}' {
        seq!['\\', 'b']
    } else if c == '\u{c}' {
        seq!['\\', 'f']
    } else if c == '\n' {
        seq!['\\', 'n']
    } else if c == '\r' {
        seq!['\\', 'r']
    } else if c == '\t' {
        seq!['\\', 't']
    } else if (c as u32) < 0x20 {
        seq!['\\', 'u', '0', '0', hex_digit_char((c as u32) / 16), hex_digit_char((c as u32) % 16)]
    } else {
        seq![c]
    }
}

/// A string's characters, escaped.
pub open spec fn escape_string(s: Seq<char>) -> Seq<char>
    decreases s.len(),
{
    if s.len() == 0 {
        Seq::<char>::empty()
    } else {
        escape_char(s[0]) + escape_string(s.drop_first())
    }
}

/// A quoted, escaped string.
pub open spec fn render_string(s: Seq<char>) -> Seq<char> {
    seq!['"'] + escape_string(s) + seq!['"']
}

/// An unsigned count in decimal.
pub open spec fn digits_of(v: nat) -> Seq<char>
    decreases v,
{
    if v < 10 {
        seq![hex_digit_char(v as u32)]
    } else {
        digits_of(v / 10) + seq![hex_digit_char((v % 10) as u32)]
    }
}

/// One member, `"key": value` (the space only when pretty).
pub open spec fn render_member(key: Seq<char>, value: Seq<char>, pretty: bool) -> Seq<char> {
    seq!['"'] + key + (if pretty {
        seq!['"', ':', ' ']
    } else {
        seq!['"', ':']
    }) + value
}

/// The separator between members of one card.
pub open spec fn member_sep(pretty: bool) -> Seq<char> {
    if pretty {
        seq![',', '\n', ' ', ' ', ' ', ' ']
    } else {
        seq![',']
    }
}

/// The six members of a card, in the fixed order, separated by commas —
/// each on its own four-space-indented line when pretty.
pub open spec fn render_card_body(cv: CardView, pretty: bool) -> Seq<char> {
    let sep = member_sep(pretty);
    render_member(key_prompt(), render_string(cv.prompt), pretty) + sep + render_member(
        key_response(),
        render_string(cv.response),
        pretty,
    ) + sep + render_member(key_hits(), digits_of(cv.hits as nat), pretty) + sep + render_member(
        key_misses(),
        digits_of(cv.misses as nat),
        pretty,
    ) + sep + render_member(key_reverse_hits(), digits_of(cv.reverse_hits as nat), pretty) + sep
        + render_member(key_reverse_misses(), digits_of(cv.reverse_misses as nat), pretty)
}

/// One card object: braces around the members, laid out over indented
/// lines when pretty.
pub open spec fn render_card(cv: CardView, pretty: bool) -> Seq<char> {
    if pretty {
        seq![' ', ' ', '{', '\n', ' ', ' ', ' ', ' '] + render_card_body(cv, true) + seq![
            '\n',
            ' ',
            ' ',
            '}',
        ]
    } else {
        seq!['{'] + render_card_body(cv, false) + seq!['}']
    }
}

/// The separator between cards.
pub open spec fn item_sep(pretty: bool) -> Seq<char> {
    if pretty {
        seq![',', '\n']
    } else {
        seq![',']
    }
}

/// Each card's rendered text.
pub open spec fn rendered_items(views: Seq<CardView>, pretty: bool) -> Seq<Seq<char>> {
    views.map_values(|v: CardView| render_card(v, pretty))
}

/// Texts joined by a separator.
pub open spec fn join_items(items: Seq<Seq<char>>, sep: Seq<char>) -> Seq<char>
    decreases items.len(),
{
    if items.len() == 0 {
        Seq::<char>::empty()
    } else if items.len() == 1 {
        items[0]
    } else {
        items[0] + sep + join_items(items.drop_first(), sep)
    }
}

/// The cards, comma-separated.
pub open spec fn render_items(views: Seq<CardView>, pretty: bool) -> Seq<char> {
    join_items(rendered_items(views, pretty), item_sep(pretty))
}

/// A whole collection: the array brackets around the cards; an empty
/// collection is the empty array either way.
pub open spec fn spec_render_cards(views: Seq<CardView>, pretty: bool) -> Seq<char> {
    if views.len() == 0 {
        seq!['[', ']']
    } else if pretty {
        seq!['[', '\n'] + render_items(views, true) + seq!['\n', ']']
    } else {
        seq!['['] + render_items(views, false) + seq![']']
    }
}

/// Appends one character's escape.
fn append_escaped_char(out: &mut Vec<char>, c: char)
    ensures
        final(out)@ == old(out)@ + escape_char(c),
{
    let ghost prev = out@;
    if c == '"' {
        out.push('\\');
        out.push('"');
    } else if c == '\\' {
        out.push('\\');
        out.push('\\');
    } else if c == '\u{8}' {
        out.push('\\');
        out.push('b');
    } else if c == '\u{c}' {
        out.push('\\');
        out.push('f');
    } else if c == '\n' {
        out.push('\\');
        out.push('n');
    } else if c == '\r' {
        out.push('\\');
        out.push('r');
    } else if c == '\t' {
        out.push('\\');
        out.push('t');
    } else if (c as u32) < 0x20 {
        let hi: u32 = (c as u32) / 16;
        let lo: u32 = (c as u32) % 16;
        out.push('\\');
        out.push('u');
        out.push('0');
        out.push('0');
        out.push(if hi < 10 {
            ((0x30 + hi) as u8) as char
        } else {
            ((0x61 + hi - 10) as u8) as char
        });
        out.push(if lo < 10 {
            ((0x30 + lo) as u8) as char
        } else {
            ((0x61 + lo - 10) as u8) as char
        });
    } else {
        out.push(c);
    }
    proof {
        assert(final(out)@ =~= prev + escape_char(c));
    }
}

/// Appends a quoted, escaped string.
fn append_string_value(out: &mut Vec<char>, s: &String)
    ensures
        final(out)@ == old(out)@ + render_string(s@),
{
    let chars = crate::text::str_to_chars(s.as_str());
    let ghost prev = out@;
    out.push('"');
    let mut i: usize = 0;
    while i < chars.len()
        invariant
            i <= chars@.len(),
            chars@ == s@,
            out@ == prev + seq!['"'] + escape_string(chars@.take(i as int)),
        decreases chars@.len() - i,
    {
        proof {
            lemma_escape_take_step(chars@, i as int);
        }
        append_escaped_char(out, chars[i]);
        i = i + 1;
    }
    proof {
        assert(chars@.take(chars@.len() as int) =~= chars@);
    }
    out.push('"');
    proof {
        assert(final(out)@ =~= prev + render_string(s@));
    }
}

/// Escaping one more character extends the escape of the prefix.
proof fn lemma_escape_take_step(s: Seq<char>, i: int)
    requires
        0 <= i < s.len(),
    ensures
        escape_string(s.take(i + 1)) == escape_string(s.take(i)) + escape_char(s[i]),
    decreases i,
{
    if i == 0 {
        assert(s.take(1).drop_first() =~= s.take(0));
        assert(escape_string(s.take(1)) =~= escape_char(s[0]) + escape_string(s.take(0)));
        assert(escape_string(s.take(0)) + escape_char(s[0]) =~= escape_char(s[0]) + escape_string(
            s.take(0),
        ));
    } else {
        lemma_escape_take_step(s.drop_first(), i - 1);
        assert(s.take(i + 1).drop_first() =~= s.drop_first().take(i));
        assert(s.take(i).drop_first() =~= s.drop_first().take(i - 1));
        assert(s.take(i + 1)[0] == s[0] && s.take(i)[0] == s[0]);
        assert(s.drop_first()[i - 1] == s[i]);
        assert(escape_string(s.take(i + 1)) == escape_char(s[0]) + escape_string(
            s.drop_first().take(i),
        ));
        assert(escape_string(s.take(i)) == escape_char(s[0]) + escape_string(
            s.drop_first().take(i - 1),
        ));
        assert(escape_char(s[0]) + (escape_string(s.drop_first().take(i - 1)) + escape_char(s[i]))
            =~= (escape_char(s[0]) + escape_string(s.drop_first().take(i - 1))) + escape_char(
            s[i],
        ));
    }
}

/// Appends a count in decimal.
fn append_count(out: &mut Vec<char>, v: u32)
    ensures
        final(out)@ == old(out)@ + digits_of(v as nat),
    decreases v,
{
    if v < 10 {
        out.push(((0x30 + v) as u8) as char);
        proof {
            assert(final(out)@ =~= old(out)@ + digits_of(v as nat));
        }
    } else {
        append_count(out, v / 10);
        out.push(((0x30 + v % 10) as u8) as char);
        proof {
            assert((v / 10) as nat == (v as nat) / 10 && (v % 10) as nat == (v as nat) % 10);
            assert(final(out)@ =~= old(out)@ + digits_of(v as nat));
        }
    }
}

/// Appends one card object.
/// Appends `"key":` (with a trailing space when pretty).
fn append_key(out: &mut Vec<char>, key: &str, pretty: bool)
    ensures
        final(out)@ == old(out)@ + seq!['"'] + key@ + (if pretty {
            seq!['"', ':', ' ']
        } else {
            seq!['"', ':']
        }),
{
    let ghost prev = out@;
    out.push('"');
    let kc = crate::text::str_to_chars(key);
    let mut i: usize = 0;
    while i < kc.len()
        invariant
            i <= kc@.len(),
            kc@ == key@,
            out@ == prev + seq!['"'] + kc@.take(i as int),
        decreases kc@.len() - i,
    {
        out.push(kc[i]);
        proof {
            assert(prev + seq!['"'] + kc@.take(i as int) + seq![kc@[i as int]] =~= prev + seq!['"']
                + kc@.take(i as int + 1));
        }
        i = i + 1;
    }
    proof {
        assert(kc@.take(kc@.len() as int) =~= kc@);
    }
    out.push('"');
    out.push(':');
    if pretty {
        out.push(' ');
    }
    proof {
        assert(final(out)@ =~= prev + seq!['"'] + key@ + (if pretty {
            seq!['"', ':', ' ']
        } else {
            seq!['"', ':']
        }));
    }
}

/// Appends one string-valued member.
fn append_member_str(out: &mut Vec<char>, key: &str, value: &String, pretty: bool)
    ensures
        final(out)@ == old(out)@ + render_member(key@, render_string(value@), pretty),
{
    let ghost prev = out@;
    append_key(out, key, pretty);
    append_string_value(out, value);
    proof {
        assert(final(out)@ =~= prev + render_member(key@, render_string(value@), pretty));
    }
}

/// Appends one count-valued member.
fn append_member_count(out: &mut Vec<char>, key: &str, v: u32, pretty: bool)
    ensures
        final(out)@ == old(out)@ + render_member(key@, digits_of(v as nat), pretty),
{
    let ghost prev = out@;
    append_key(out, key, pretty);
    append_count(out, v);
    proof {
        assert(final(out)@ =~= prev + render_member(key@, digits_of(v as nat), pretty));
    }
}

/// Appends one card object.
#[verifier::rlimit(100)]
fn append_card(out: &mut Vec<char>, c: &Card, pretty: bool)
    ensures
        final(out)@ == old(out)@ + render_card(c@, pretty),
{
    let ghost prev = out@;
    if pretty {
        out.push(' ');
        out.push(' ');
        out.push('{');
        out.push('\n');
        out.push(' ');
        out.push(' ');
        out.push(' ');
        out.push(' ');
    } else {
        out.push('{');
    }
    proof {
        assert(out@ =~= prev + (if pretty {
            seq![' ', ' ', '{', '\n', ' ', ' ', ' ', ' ']
        } else {
            seq!['{']
        }));
    }
    append_member_str(out, "prompt", &c.prompt, pretty);
    push_sep(out, pretty);
    append_member_str(out, "response", &c.response, pretty);
    push_sep(out, pretty);
    append_member_count(out, "hits", c.hits, pretty);
    push_sep(out, pretty);
    append_member_count(out, "misses", c.misses, pretty);
    push_sep(out, pretty);
    append_member_count(out, "reverse_hits", c.reverse_hits, pretty);
    push_sep(out, pretty);
    append_member_count(out, "reverse_misses", c.reverse_misses, pretty);
    proof {
        reveal_strlit("prompt");
        reveal_strlit("response");
        reveal_strlit("hits");
        reveal_strlit("misses");
        reveal_strlit("reverse_hits");
        reveal_strlit("reverse_misses");
        assert("prompt"@ =~= key_prompt());
        assert("response"@ =~= key_response());
        assert("hits"@ =~= key_hits());
        assert("misses"@ =~= key_misses());
        assert("reverse_hits"@ =~= key_reverse_hits());
        assert("reverse_misses"@ =~= key_reverse_misses());
    }
    let ghost acc6 = out@;
    if pretty {
        out.push('\n');
        out.push(' ');
        out.push(' ');
        out.push('}');
    } else {
        out.push('}');
    }
    proof {
        assert(acc6 =~= prev + (if pretty {
            seq![' ', ' ', '{', '\n', ' ', ' ', ' ', ' ']
        } else {
            seq!['{']
        }) + render_card_body(c@, pretty));
        assert(out@ =~= prev + render_card(c@, pretty));
    }
}

/// Appends the member separator: a comma, then a fresh indented line when
/// pretty.
fn push_sep(out: &mut Vec<char>, pretty: bool)
    ensures
        final(out)@ == old(out)@ + member_sep(pretty),
{
    out.push(',');
    if pretty {
        out.push('\n');
        out.push(' ');
        out.push(' ');
        out.push(' ');
        out.push(' ');
    }
    proof {
        assert(final(out)@ =~= old(out)@ + member_sep(pretty));
    }
}

/// Builds the serialized text of the collection.
#[verifier::rlimit(100)]
fn render_cards_chars(cards: &Vec<Card>, pretty: bool) -> (out: Vec<char>)
    ensures
        out@ == spec_render_cards(views_of(cards@), pretty),
{
    let mut out: Vec<char> = Vec::new();
    let n = cards.len();
    if n == 0 {
        out.push('[');
        out.push(']');
        proof {
            assert(views_of(cards@).len() == 0);
            assert(out@ =~= spec_render_cards(views_of(cards@), pretty));
        }
        return out;
    }
    out.push('[');
    if pretty {
        out.push('\n');
    }
    proof {
        assert(out@ =~= (if pretty {
            seq!['[', '\n']
        } else {
            seq!['[']
        }));
    }
    let ghost head = out@;
    let ghost items = rendered_items(views_of(cards@), pretty);
    let ghost sep = item_sep(pretty);
    proof {
        assert(head + join_head(items, 0, sep) =~= head);
    }
    let mut i: usize = 0;
    while i < n
        invariant
            i < n == cards@.len(),
            items == rendered_items(views_of(cards@), pretty),
            sep == item_sep(pretty),
            head == (if pretty {
                seq!['[', '\n']
            } else {
                seq!['[']
            }),
            out@ == head + join_head(items, i as int, sep),
        decreases n - i,
    {
        append_card(&mut out, &cards[i], pretty);
        proof {
            assert(items[i as int] == render_card(cards@[i as int]@, pretty));
            assert(out@ =~= head + (join_head(items, i as int, sep) + items[i as int]));
        }
        if i + 1 < n {
            out.push(',');
            if pretty {
                out.push('\n');
            }
            proof {
                assert(out@ =~= head + join_head(items, i as int + 1, sep));
            }
            i = i + 1;
        } else {
            proof {
                assert(items.len() == cards@.len());
                lemma_join_last(items, i as int, sep);
                assert(out@ =~= head + render_items(views_of(cards@), pretty));
            }
            let ghost body = render_items(views_of(cards@), pretty);
            let ghost withbody = out@;
            if pretty {
                out.push('\n');
            }
            out.push(']');
            proof {
                assert(views_of(cards@).len() == cards@.len());
                assert(out@ =~= withbody + (if pretty {
                    seq!['\n', ']']
                } else {
                    seq![']']
                }));
                assert(head + body + (if pretty {
                    seq!['\n', ']']
                } else {
                    seq![']']
                }) =~= spec_render_cards(views_of(cards@), pretty));
                assert(out@ == spec_render_cards(views_of(cards@), pretty));
            }
            return out;
        }
    }
    proof {
        assert(false);
    }
    out
}

/// The texts before position `i`, each followed by the separator: what the
/// builder has emitted when it reaches item `i`.
pub open spec fn join_head(items: Seq<Seq<char>>, i: int, sep: Seq<char>) -> Seq<char>
    decreases i,
{
    if i <= 0 {
        Seq::<char>::empty()
    } else {
        join_head(items, i - 1, sep) + items[i - 1] + sep
    }
}

/// The head over the whole list equals the first text, the separator, and
/// the head over the rest.
proof fn lemma_join_head_drop(items: Seq<Seq<char>>, i: int, sep: Seq<char>)
    requires
        1 <= i < items.len(),
    ensures
        join_head(items, i, sep) =~= items[0] + sep + join_head(items.drop_first(), i - 1, sep),
    decreases i,
{
    if i == 1 {
        assert(join_head(items, 0, sep) == Seq::<char>::empty());
        assert(join_head(items.drop_first(), 0, sep) == Seq::<char>::empty());
    } else {
        lemma_join_head_drop(items, i - 1, sep);
        assert(items.drop_first()[i - 2] == items[i - 1]);
        assert((items[0] + sep + join_head(items.drop_first(), i - 2, sep)) + items[i - 1] + sep
            =~= items[0] + sep + (join_head(items.drop_first(), i - 2, sep) + items[i - 1] + sep));
    }
}

/// Emitting every text but the last with a separator, then the last alone,
/// adds up to the separator-joined whole.
proof fn lemma_join_last(items: Seq<Seq<char>>, i: int, sep: Seq<char>)
    requires
        0 <= i,
        i + 1 == items.len(),
    ensures
        join_head(items, i, sep) + items[i] =~= join_items(items, sep),
    decreases i,
{
    if i == 0 {
        assert(join_head(items, 0, sep) == Seq::<char>::empty());
    } else {
        lemma_join_last(items.drop_first(), i - 1, sep);
        lemma_join_head_drop(items, i, sep);
        assert(items.drop_first()[i - 1] == items[i]);
        assert((items[0] + sep + join_head(items.drop_first(), i - 1, sep)) + items[i] =~= items[0]
            + sep + (join_head(items.drop_first(), i - 1, sep) + items.drop_first()[i - 1]));
    }
}

proof fn lemma_digits_of_are_digits(v: nat)
    ensures
        digits_of(v).len() >= 1,
        forall|k: int| 0 <= k < digits_of(v).len() ==> crate::json::is_digit(#[trigger] digits_of(v)[k]),
    decreases v,
{
    if v >= 10 {
        lemma_digits_of_are_digits(v / 10);
    }
}

proof fn lemma_digits_of_no_leading_zero(v: nat)
    requires
        v >= 1,
    ensures
        digits_of(v)[0] != '0',
    decreases v,
{
    if v >= 10 {
        lemma_digits_of_no_leading_zero(v / 10);
    }
}

proof fn lemma_digits_of_len(v: nat, k: nat)
    requires
        k >= 1,
        v < crate::json::pow10(k),
    ensures
        digits_of(v).len() <= k,
    decreases v,
{
    if v >= 10 {
        assert(crate::json::pow10(0) == 1);
        assert(crate::json::pow10(1) == 10);
        if k == 1 {
            assert(false);
        }
        assert(v / 10 < crate::json::pow10((k - 1) as nat)) by {
            vstd::arithmetic::div_mod::lemma_fundamental_div_mod(v as int, 10);
        }
        lemma_digits_of_len(v / 10, (k - 1) as nat);
    }
}

/// A digit run surrounded as stated ends exactly at `j`.
proof fn lemma_digits_end_of_run(t: Seq<char>, i: int, j: int)
    requires
        0 <= i <= j <= t.len(),
        forall|k: int| i <= k < j ==> crate::json::is_digit(#[trigger] t[k]),
        j == t.len() || !crate::json::is_digit(t[j]),
    ensures
        crate::json::digits_end(t, i) == j,
    decreases j - i,
{
    if i < j {
        lemma_digits_end_of_run(t, i + 1, j);
    }
}

/// The decimal text of `v`, read back left to right, is `v` again.
proof fn lemma_digits_value_of(t: Seq<char>, i: int, v: nat)
    requires
        0 <= i,
        i + digits_of(v).len() <= t.len(),
        t.subrange(i, i + digits_of(v).len()) == digits_of(v),
    ensures
        crate::json::digits_value(t, i, i + digits_of(v).len()) == v,
    decreases v,
{
    let n = digits_of(v).len() as int;
    if v < 10 {
        assert(t[i] == digits_of(v)[0]);
        assert(crate::json::digits_value(t, i, i) == 0);
        assert(crate::json::digit_val(t[i]) == v);
    } else {
        assert(digits_of(v) == digits_of(v / 10) + seq![hex_digit_char((v % 10) as u32)]);
        assert(t.subrange(i, i + n - 1) =~= digits_of(v / 10));
        lemma_digits_value_of(t, i, v / 10);
        assert(t[i + n - 1] == digits_of(v)[n - 1]);
        assert(crate::json::digit_val(t[i + n - 1]) == v % 10);
        vstd::arithmetic::div_mod::lemma_fundamental_div_mod(v as int, 10);
    }
}

/// A serialized count reads back as itself: wherever the decimal text of
/// `v` stands with no digit directly after it, the parser returns exactly
/// `v` and stops exactly after it.
pub proof fn lemma_count_round_trip(t: Seq<char>, i: int, v: u32)
    requires
        0 <= i,
        i + digits_of(v as nat).len() <= t.len(),
        t.subrange(i, i + digits_of(v as nat).len()) == digits_of(v as nat),
        i + digits_of(v as nat).len() == t.len() || !crate::json::is_digit(
            t[i + digits_of(v as nat).len()],
        ),
    ensures
        crate::json::spec_parse_count(t, i) == Some((v, i + digits_of(v as nat).len())),
{
    let n = digits_of(v as nat).len() as int;
    lemma_digits_of_are_digits(v as nat);
    assert(forall|k: int| i <= k < i + n ==> crate::json::is_digit(#[trigger] t[k])) by {
        assert(forall|k: int|
            i <= k < i + n ==> #[trigger] t[k] == digits_of(v as nat)[k - i]);
    }
    lemma_digits_end_of_run(t, i, i + n);
    lemma_digits_value_of(t, i, v as nat);
    assert(t[i] == digits_of(v as nat)[0]);
    if v >= 1 {
        lemma_digits_of_no_leading_zero(v as nat);
    }
    assert(crate::json::pow10(10) == 10_000_000_000) by {
        reveal_with_fuel(crate::json::pow10, 11);
    }
    lemma_digits_of_len(v as nat, 10);
}

/// A hexadecimal digit character reads back as its value.
proof fn lemma_hex_digit_char_val(x: u32)
    requires
        x < 16,
    ensures
        crate::json::hex_val(hex_digit_char(x)) == x,
        crate::json::is_hex(hex_digit_char(x)),
{
}

/// One escaped character reads back as itself: a single-character escape
/// is a plain character the parser passes through; a longer one is an
/// escape sequence the parser decodes to exactly that character.
proof fn lemma_escape_char_reads_back(t: Seq<char>, i: int, c: char)
    requires
        0 <= i,
        i + escape_char(c).len() <= t.len(),
        t.subrange(i, i + escape_char(c).len()) == escape_char(c),
    ensures
        escape_char(c).len() == 1 ==> t[i] == c && c != '"' && c != '\\' && (c as u32) >= 0x20,
        escape_char(c).len() > 1 ==> t[i] == '\\' && crate::json::spec_parse_escape(t, i)
            == Some((c, i + escape_char(c).len())),
{
    let ec = escape_char(c);
    let m = ec.len() as int;
    assert forall|k: int| 0 <= k < m implies #[trigger] t[i + k] == ec[k] by {
        assert(t.subrange(i, i + m)[k] == ec[k]);
    }
    if c == '"' || c == '\\' || c == '\u{8}' || c == '\u{c}' || c == '\n' || c == '\r' || c
        == '\t' {
        assert(t[i + 0] == '\\' && t[i + 1] == ec[1]);
        assert(t[i] == '\\');
    } else if (c as u32) < 0x20 {
        let u = c as u32;
        assert(t[i + 0] == '\\' && t[i + 1] == 'u' && t[i + 2] == '0' && t[i + 3] == '0' && t[i
            + 4] == hex_digit_char(u / 16) && t[i + 5] == hex_digit_char(u % 16));
        assert(t[i] == '\\');
        lemma_hex_digit_char_val(u / 16);
        lemma_hex_digit_char_val(u % 16);
        vstd::arithmetic::div_mod::lemma_fundamental_div_mod(u as int, 16);
        assert(crate::json::spec_hex4(t, i + 2) == Some(u));
        vstd::utf8::char_u32_cast(c, u);
        assert(crate::json::spec_parse_escape(t, i) == Some((c, i + 6)));
    } else {
        assert(t[i + 0] == c);
        assert(t[i] == c);
    }
}

/// A serialized string body reads back as itself: wherever the escape of
/// `s` followed by a closing quote stands, the parser returns exactly `s`
/// and stops right after the quote.
pub proof fn lemma_string_round_trip(t: Seq<char>, i: int, s: Seq<char>)
    requires
        0 <= i,
        i + escape_string(s).len() + 1 <= t.len(),
        t.subrange(i, i + escape_string(s).len() + 1) == escape_string(s) + seq!['"'],
    ensures
        crate::json::spec_parse_string_rest(t, i) == Some(
            (s, i + escape_string(s).len() + 1),
        ),
    decreases s.len(),
{
    let n = escape_string(s).len() as int;
    if s.len() == 0 {
        assert(t.subrange(i, i + 1)[0] == '"');
        assert(t[i] == '"');
    } else {
        let c = s[0];
        let ec = escape_char(c);
        let rest = s.drop_first();
        assert(escape_string(s) == ec + escape_string(rest));
        let m = ec.len() as int;
        assert(t.subrange(i, i + m) =~= t.subrange(i, i + n + 1).subrange(0, m));
        assert((escape_string(s) + seq!['"']).subrange(0, m) =~= ec);
        lemma_escape_char_reads_back(t, i, c);
        assert(t.subrange(i + m, i + n + 1) =~= t.subrange(i, i + n + 1).subrange(m, n + 1));
        assert((escape_string(s) + seq!['"']).subrange(m, n + 1) =~= escape_string(rest)
            + seq!['"']);
        lemma_string_round_trip(t, i + m, rest);
        assert(seq![c] + rest =~= s);
    }
}

/// A text without quotes, backslashes or control characters is its own
/// escape.
proof fn lemma_escape_string_plain(s: Seq<char>)
    requires
        forall|k: int|
            0 <= k < s.len() ==> (#[trigger] s[k]) != '"' && s[k] != '\\' && (s[k] as u32) >= 0x20,
    ensures
        escape_string(s) == s,
    decreases s.len(),
{
    if s.len() > 0 {
        lemma_escape_string_plain(s.drop_first());
        assert(escape_char(s[0]) + s.drop_first() =~= s);
    }
}

/// One member and its terminator read back as one step of the member
/// parser: the key string, the colon, the already-read value, then a comma
/// that continues with the rest — or the closing brace that ends the card.
#[verifier::rlimit(100)]
#[verifier::spinoff_prover]
proof fn lemma_parse_members_step(
    t: Seq<char>,
    i: int,
    acc: crate::json::CardAcc,
    acc2: crate::json::CardAcc,
    key: Seq<char>,
    vtext: Seq<char>,
    last: bool,
)
    requires
        0 <= i,
        i + key.len() + 4 + vtext.len() <= t.len(),
        t.subrange(i, i + key.len() + 4 + vtext.len()) == seq!['"'] + key + seq!['"', ':'] + vtext
            + seq![(if last { '}' } else { ',' })],
        forall|k: int|
            0 <= k < key.len() ==> (#[trigger] key[k]) != '"' && key[k] != '\\' && (key[k] as u32)
                >= 0x20,
        vtext.len() > 0,
        !is_ws(vtext[0]),
        crate::json::spec_member_value(
            t,
            i + key.len() + 3,
            acc,
            crate::json::spec_key_kind(key),
        ) == Some((acc2, i + key.len() + 3 + vtext.len())),
        !last ==> i + key.len() + 4 + vtext.len() < t.len() && !is_ws(
            t[i + key.len() + 4 + vtext.len()],
        ),
    ensures
        last ==> crate::json::spec_parse_members(t, i, acc) == Some(
            (acc2, i + key.len() + 4 + vtext.len()),
        ),
        !last ==> crate::json::spec_parse_members(t, i, acc)
            == crate::json::spec_parse_members(t, i + key.len() + 4 + vtext.len(), acc2),
{
    let kl = key.len() as int;
    let vl = vtext.len() as int;
    let n = kl + 4 + vl;
    let term: char = if last {
        '}'
    } else {
        ','
    };
    let seg = seq!['"'] + key + seq!['"', ':'] + vtext + seq![term];
    assert(t.subrange(i, i + n) == seg);
    assert(t[i] == '"') by {
        assert(t.subrange(i, i + n)[0] == seg[0]);
    }
    lemma_escape_string_plain(key);
    assert(t.subrange(i + 1, i + 1 + kl + 1) =~= escape_string(key) + seq!['"']) by {
        assert forall|k: int|
            0 <= k < kl + 1 implies t.subrange(i + 1, i + 1 + kl + 1)[k] == (escape_string(key)
            + seq!['"'])[k] by {
            assert(t.subrange(i, i + n)[1 + k] == seg[1 + k]);
        }
    }
    lemma_string_round_trip(t, i + 1, key);
    let e = i + kl + 2;
    assert(t[e] == ':') by {
        assert(t.subrange(i, i + n)[kl + 2] == seg[kl + 2]);
    }
    assert(skip_ws(t, e) == e);
    assert(t[e + 1] == vtext[0]) by {
        assert(t.subrange(i, i + n)[kl + 3] == seg[kl + 3]);
    }
    assert(skip_ws(t, e + 1) == e + 1);
    let e2 = i + kl + 3 + vl;
    assert(t[e2] == term) by {
        assert(t.subrange(i, i + n)[kl + 3 + vl] == seg[kl + 3 + vl]);
    }
    assert(skip_ws(t, e2) == e2);
    if !last {
        assert(skip_ws(t, e2 + 1) == e2 + 1);
    }
    lemma_members_unfold(t, i, acc, acc2, key, e, e2, last);
}

/// One unfolding of the member parser, from the primitive facts the step
/// above establishes.
#[verifier::rlimit(100)]
#[verifier::spinoff_prover]
proof fn lemma_members_unfold(
    t: Seq<char>,
    i: int,
    acc: crate::json::CardAcc,
    acc2: crate::json::CardAcc,
    key: Seq<char>,
    e: int,
    e2: int,
    last: bool,
)
    requires
        0 <= i < t.len(),
        t[i] == '"',
        crate::json::spec_parse_string_rest(t, i + 1) == Some((key, e)),
        i < e,
        e + 1 < t.len(),
        skip_ws(t, e) == e,
        t[e] == ':',
        skip_ws(t, e + 1) == e + 1,
        crate::json::spec_member_value(t, e + 1, acc, crate::json::spec_key_kind(key)) == Some(
            (acc2, e2),
        ),
        e + 1 < e2,
        e2 < t.len(),
        skip_ws(t, e2) == e2,
        last ==> t[e2] == '}',
        !last ==> t[e2] == ',' && e2 + 1 < t.len() && skip_ws(t, e2 + 1) == e2 + 1,
    ensures
        last ==> crate::json::spec_parse_members(t, i, acc) == Some((acc2, e2 + 1)),
        !last ==> crate::json::spec_parse_members(t, i, acc)
            == crate::json::spec_parse_members(t, e2 + 1, acc2),
{
}

/// A text known to hold `a + b` holds `a` and then `b`.
proof fn lemma_subrange_split(t: Seq<char>, i: int, a: Seq<char>, b: Seq<char>)
    requires
        0 <= i,
        i + a.len() + b.len() <= t.len(),
        t.subrange(i, i + a.len() + b.len()) == a + b,
    ensures
        t.subrange(i, i + a.len()) == a,
        t.subrange(i + a.len(), i + a.len() + b.len()) == b,
{
    let al = a.len() as int;
    let bl = b.len() as int;
    assert(t.subrange(i, i + al) =~= a) by {
        assert forall|k: int| 0 <= k < al implies t.subrange(i, i + al)[k] == a[k] by {
            assert(t.subrange(i, i + al + bl)[k] == (a + b)[k]);
        }
    }
    assert(t.subrange(i + al, i + al + bl) =~= b) by {
        assert forall|k: int| 0 <= k < bl implies t.subrange(i + al, i + al + bl)[k] == b[k] by {
            assert(t.subrange(i, i + al + bl)[al + k] == (a + b)[al + k]);
        }
    }
}

/// One member of a compact card object, terminator included.
spec fn member_seg(key: Seq<char>, vtext: Seq<char>, term: char) -> Seq<char> {
    seq!['"'] + key + seq!['"', ':'] + vtext + seq![term]
}

/// A compact card text is its six member segments between braces, in
/// serialization order.
#[verifier::rlimit(100)]
#[verifier::spinoff_prover]
proof fn lemma_card_text_shape(cv: CardView)
    ensures
        render_card(cv, false) == seq!['{'] + (member_seg(
            key_prompt(),
            render_string(cv.prompt),
            ',',
        ) + (member_seg(key_response(), render_string(cv.response), ',') + (member_seg(
            key_hits(),
            digits_of(cv.hits as nat),
            ',',
        ) + (member_seg(key_misses(), digits_of(cv.misses as nat), ',') + (member_seg(
            key_reverse_hits(),
            digits_of(cv.reverse_hits as nat),
            ',',
        ) + member_seg(key_reverse_misses(), digits_of(cv.reverse_misses as nat), '}')))))),
{
    assert(render_card(cv, false) =~= seq!['{'] + (member_seg(
        key_prompt(),
        render_string(cv.prompt),
        ',',
    ) + (member_seg(key_response(), render_string(cv.response), ',') + (member_seg(
        key_hits(),
        digits_of(cv.hits as nat),
        ',',
    ) + (member_seg(key_misses(), digits_of(cv.misses as nat), ',') + (member_seg(
        key_reverse_hits(),
        digits_of(cv.reverse_hits as nat),
        ',',
    ) + member_seg(key_reverse_misses(), digits_of(cv.reverse_misses as nat), '}')))))));
}

/// A serialized text member reads back into the accumulator.
#[verifier::spinoff_prover]
proof fn lemma_member_value_text(
    t: Seq<char>,
    p: int,
    acc: crate::json::CardAcc,
    kind: crate::json::FieldKey,
    content: Seq<char>,
)
    requires
        0 <= p,
        p + render_string(content).len() <= t.len(),
        t.subrange(p, p + render_string(content).len()) == render_string(content),
        kind == crate::json::FieldKey::Prompt || kind == crate::json::FieldKey::Response,
        kind == crate::json::FieldKey::Prompt ==> acc.prompt is None,
        kind == crate::json::FieldKey::Response ==> acc.response is None,
    ensures
        kind == crate::json::FieldKey::Prompt ==> crate::json::spec_member_value(t, p, acc, kind)
            == Some(
            (
                crate::json::CardAcc { prompt: Some(content), ..acc },
                p + render_string(content).len(),
            ),
        ),
        kind == crate::json::FieldKey::Response ==> crate::json::spec_member_value(t, p, acc, kind)
            == Some(
            (
                crate::json::CardAcc { response: Some(content), ..acc },
                p + render_string(content).len(),
            ),
        ),
{
    assert(render_string(content) == seq!['"'] + (escape_string(content) + seq!['"'])) by {
        assert(render_string(content) =~= seq!['"'] + (escape_string(content) + seq!['"']));
    }
    lemma_subrange_split(t, p, seq!['"'], escape_string(content) + seq!['"']);
    assert(t[p] == '"') by {
        assert(t.subrange(p, p + 1)[0] == '"');
    }
    lemma_string_round_trip(t, p + 1, content);
}

/// A serialized count member reads back into the accumulator.
#[verifier::spinoff_prover]
proof fn lemma_member_value_count(
    t: Seq<char>,
    p: int,
    acc: crate::json::CardAcc,
    kind: crate::json::FieldKey,
    v: u32,
)
    requires
        0 <= p,
        p + digits_of(v as nat).len() < t.len(),
        t.subrange(p, p + digits_of(v as nat).len()) == digits_of(v as nat),
        !crate::json::is_digit(t[p + digits_of(v as nat).len()]),
        kind == crate::json::FieldKey::Hits || kind == crate::json::FieldKey::Misses || kind
            == crate::json::FieldKey::ReverseHits || kind == crate::json::FieldKey::ReverseMisses,
        kind == crate::json::FieldKey::Hits ==> acc.hits is None,
        kind == crate::json::FieldKey::Misses ==> acc.misses is None,
        kind == crate::json::FieldKey::ReverseHits ==> acc.reverse_hits is None,
        kind == crate::json::FieldKey::ReverseMisses ==> acc.reverse_misses is None,
    ensures
        kind == crate::json::FieldKey::Hits ==> crate::json::spec_member_value(t, p, acc, kind)
            == Some(
            (crate::json::CardAcc { hits: Some(v), ..acc }, p + digits_of(v as nat).len()),
        ),
        kind == crate::json::FieldKey::Misses ==> crate::json::spec_member_value(t, p, acc, kind)
            == Some(
            (crate::json::CardAcc { misses: Some(v), ..acc }, p + digits_of(v as nat).len()),
        ),
        kind == crate::json::FieldKey::ReverseHits ==> crate::json::spec_member_value(
            t,
            p,
            acc,
            kind,
        ) == Some(
            (crate::json::CardAcc { reverse_hits: Some(v), ..acc }, p + digits_of(v as nat).len()),
        ),
        kind == crate::json::FieldKey::ReverseMisses ==> crate::json::spec_member_value(
            t,
            p,
            acc,
            kind,
        ) == Some(
            (
                crate::json::CardAcc { reverse_misses: Some(v), ..acc },
                p + digits_of(v as nat).len(),
            ),
        ),
{
    lemma_count_round_trip(t, p, v);
    lemma_digits_of_are_digits(v as nat);
    assert(t[p] == digits_of(v as nat)[0]) by {
        assert(t.subrange(p, p + digits_of(v as nat).len())[0] == digits_of(v as nat)[0]);
    }
    assert(crate::json::is_digit(t[p]));
    assert(t[p] != 'n');
}

/// One unfolding of the card parser, from the primitive facts around it.
#[verifier::spinoff_prover]
proof fn lemma_card_unfold(
    t: Seq<char>,
    i: int,
    acc: crate::json::CardAcc,
    e: int,
    cv: CardView,
)
    requires
        0 <= i,
        i + 1 < t.len(),
        t[i] == '{',
        skip_ws(t, i + 1) == i + 1,
        t[i + 1] == '"',
        crate::json::spec_parse_members(t, i + 1, crate::json::empty_acc()) == Some((acc, e)),
        crate::json::acc_complete(acc),
        crate::json::acc_view(acc) == cv,
    ensures
        crate::json::spec_parse_card(t, i) == Some((cv, e)),
{
}

/// One whole text member — key, colon, quoted value, terminator — is one
/// step of the member parser.
#[verifier::rlimit(100)]
#[verifier::spinoff_prover]
proof fn lemma_member_step_text(
    t: Seq<char>,
    p: int,
    acc: crate::json::CardAcc,
    acc2: crate::json::CardAcc,
    key: Seq<char>,
    content: Seq<char>,
    pnext: int,
    last: bool,
)
    requires
        0 <= p,
        pnext == p + key.len() + 4 + render_string(content).len(),
        pnext <= t.len(),
        t.subrange(p, pnext) == member_seg(key, render_string(content), (if last { '}' } else { ',' })),
        forall|k: int|
            0 <= k < key.len() ==> (#[trigger] key[k]) != '"' && key[k] != '\\' && (key[k] as u32)
                >= 0x20,
        spec_key_kind_is_text(crate::json::spec_key_kind(key)),
        crate::json::spec_key_kind(key) == crate::json::FieldKey::Prompt ==> acc.prompt is None
            && acc2 == (crate::json::CardAcc { prompt: Some(content), ..acc }),
        crate::json::spec_key_kind(key) == crate::json::FieldKey::Response ==> acc.response is None
            && acc2 == (crate::json::CardAcc { response: Some(content), ..acc }),
        !last ==> pnext < t.len() && !is_ws(t[pnext]),
    ensures
        last ==> crate::json::spec_parse_members(t, p, acc) == Some((acc2, pnext)),
        !last ==> crate::json::spec_parse_members(t, p, acc) == crate::json::spec_parse_members(
            t,
            pnext,
            acc2,
        ),
{
    let vt = render_string(content);
    let kl = key.len() as int;
    let term: char = if last {
        '}'
    } else {
        ','
    };
    lemma_subrange_split(t, p, seq!['"'] + key + seq!['"', ':'] + vt, seq![term]);
    lemma_subrange_split(t, p, seq!['"'] + key + seq!['"', ':'], vt);
    let valp = p + kl + 3;
    lemma_member_value_text(t, valp, acc, crate::json::spec_key_kind(key), content);
    assert(vt[0] == '"');
    lemma_parse_members_step(t, p, acc, acc2, key, vt, last);
}

/// Whether a key names one of the two text members.
spec fn spec_key_kind_is_text(kind: crate::json::FieldKey) -> bool {
    kind == crate::json::FieldKey::Prompt || kind == crate::json::FieldKey::Response
}

/// Whether a key names one of the four count members.
spec fn spec_key_kind_is_count(kind: crate::json::FieldKey) -> bool {
    ||| kind == crate::json::FieldKey::Hits
    ||| kind == crate::json::FieldKey::Misses
    ||| kind == crate::json::FieldKey::ReverseHits
    ||| kind == crate::json::FieldKey::ReverseMisses
}

/// One whole count member — key, colon, decimal value, terminator — is one
/// step of the member parser.
#[verifier::rlimit(100)]
#[verifier::spinoff_prover]
proof fn lemma_member_step_count(
    t: Seq<char>,
    p: int,
    acc: crate::json::CardAcc,
    acc2: crate::json::CardAcc,
    key: Seq<char>,
    v: u32,
    pnext: int,
    last: bool,
)
    requires
        0 <= p,
        pnext == p + key.len() + 4 + digits_of(v as nat).len(),
        pnext <= t.len(),
        t.subrange(p, pnext) == member_seg(key, digits_of(v as nat), (if last { '}' } else { ',' })),
        forall|k: int|
            0 <= k < key.len() ==> (#[trigger] key[k]) != '"' && key[k] != '\\' && (key[k] as u32)
                >= 0x20,
        spec_key_kind_is_count(crate::json::spec_key_kind(key)),
        crate::json::spec_key_kind(key) == crate::json::FieldKey::Hits ==> acc.hits is None && acc2
            == (crate::json::CardAcc { hits: Some(v), ..acc }),
        crate::json::spec_key_kind(key) == crate::json::FieldKey::Misses ==> acc.misses is None
            && acc2 == (crate::json::CardAcc { misses: Some(v), ..acc }),
        crate::json::spec_key_kind(key) == crate::json::FieldKey::ReverseHits ==> acc.reverse_hits is None
            && acc2 == (crate::json::CardAcc { reverse_hits: Some(v), ..acc }),
        crate::json::spec_key_kind(key) == crate::json::FieldKey::ReverseMisses ==> acc.reverse_misses is None
            && acc2 == (crate::json::CardAcc { reverse_misses: Some(v), ..acc }),
        !last ==> pnext < t.len() && !is_ws(t[pnext]),
    ensures
        last ==> crate::json::spec_parse_members(t, p, acc) == Some((acc2, pnext)),
        !last ==> crate::json::spec_parse_members(t, p, acc) == crate::json::spec_parse_members(
            t,
            pnext,
            acc2,
        ),
{
    let vt = digits_of(v as nat);
    let kl = key.len() as int;
    let term: char = if last {
        '}'
    } else {
        ','
    };
    lemma_subrange_split(t, p, seq!['"'] + key + seq!['"', ':'] + vt, seq![term]);
    lemma_subrange_split(t, p, seq!['"'] + key + seq!['"', ':'], vt);
    let valp = p + kl + 3;
    assert(t[valp + vt.len()] == term) by {
        assert(t.subrange(valp + vt.len(), valp + vt.len() + 1)[0] == term);
    }
    lemma_member_value_count(t, valp, acc, crate::json::spec_key_kind(key), v);
    lemma_digits_of_are_digits(v as nat);
    assert(!is_ws(vt[0]));
    lemma_parse_members_step(t, p, acc, acc2, key, vt, last);
}

/// A compact serialized card reads back as itself: wherever its text
/// stands, the card parser returns exactly that card and stops right after
/// its closing brace.
#[verifier::rlimit(100)]
#[verifier::spinoff_prover]
pub proof fn lemma_card_round_trip(t: Seq<char>, i: int, cv: CardView)
    requires
        0 <= i,
        i + render_card(cv, false).len() <= t.len(),
        t.subrange(i, i + render_card(cv, false).len()) == render_card(cv, false),
    ensures
        crate::json::spec_parse_card(t, i) == Some((cv, i + render_card(cv, false).len())),
{
    let v1 = render_string(cv.prompt);
    let v2 = render_string(cv.response);
    let v3 = digits_of(cv.hits as nat);
    let v4 = digits_of(cv.misses as nat);
    let v5 = digits_of(cv.reverse_hits as nat);
    let v6 = digits_of(cv.reverse_misses as nat);
    let s1 = member_seg(key_prompt(), v1, ',');
    let s2 = member_seg(key_response(), v2, ',');
    let s3 = member_seg(key_hits(), v3, ',');
    let s4 = member_seg(key_misses(), v4, ',');
    let s5 = member_seg(key_reverse_hits(), v5, ',');
    let s6 = member_seg(key_reverse_misses(), v6, '}');
    let rest2 = s2 + (s3 + (s4 + (s5 + s6)));
    let rest1 = s1 + rest2;
    lemma_card_text_shape(cv);
    let n = render_card(cv, false).len() as int;
    let p1 = i + 1;
    let p2 = p1 + s1.len() as int;
    let p3 = p2 + s2.len() as int;
    let p4 = p3 + s3.len() as int;
    let p5 = p4 + s4.len() as int;
    let p6 = p5 + s5.len() as int;
    let p7 = p6 + s6.len() as int;
    lemma_subrange_split(t, i, seq!['{'], rest1);
    lemma_subrange_split(t, p1, s1, rest2);
    lemma_subrange_split(t, p2, s2, s3 + (s4 + (s5 + s6)));
    lemma_subrange_split(t, p3, s3, s4 + (s5 + s6));
    lemma_subrange_split(t, p4, s4, s5 + s6);
    lemma_subrange_split(t, p5, s5, s6);
    assert(t[i] == '{') by {
        assert(t.subrange(i, i + 1)[0] == '{');
    }
    assert(t[p1] == '"') by {
        assert(t.subrange(p1, p1 + s1.len() as int)[0] == s1[0]);
    }
    assert(skip_ws(t, p1) == p1);
    assert(crate::json::spec_key_kind(key_prompt()) == crate::json::FieldKey::Prompt);
    assert(crate::json::spec_key_kind(key_response()) == crate::json::FieldKey::Response);
    assert(crate::json::spec_key_kind(key_hits()) == crate::json::FieldKey::Hits);
    assert(crate::json::spec_key_kind(key_misses()) == crate::json::FieldKey::Misses);
    assert(crate::json::spec_key_kind(key_reverse_hits()) == crate::json::FieldKey::ReverseHits);
    assert(crate::json::spec_key_kind(key_reverse_misses())
        == crate::json::FieldKey::ReverseMisses);
    assert(forall|k: int|
        0 <= k < key_prompt().len() ==> (#[trigger] key_prompt()[k]) != '"' && key_prompt()[k]
            != '\\' && (key_prompt()[k] as u32) >= 0x20);
    assert(forall|k: int|
        0 <= k < key_response().len() ==> (#[trigger] key_response()[k]) != '"'
            && key_response()[k] != '\\' && (key_response()[k] as u32) >= 0x20);
    assert(forall|k: int|
        0 <= k < key_hits().len() ==> (#[trigger] key_hits()[k]) != '"' && key_hits()[k] != '\\'
            && (key_hits()[k] as u32) >= 0x20);
    assert(forall|k: int|
        0 <= k < key_misses().len() ==> (#[trigger] key_misses()[k]) != '"' && key_misses()[k]
            != '\\' && (key_misses()[k] as u32) >= 0x20);
    assert(forall|k: int|
        0 <= k < key_reverse_hits().len() ==> (#[trigger] key_reverse_hits()[k]) != '"'
            && key_reverse_hits()[k] != '\\' && (key_reverse_hits()[k] as u32) >= 0x20);
    assert(forall|k: int|
        0 <= k < key_reverse_misses().len() ==> (#[trigger] key_reverse_misses()[k]) != '"'
            && key_reverse_misses()[k] != '\\' && (key_reverse_misses()[k] as u32) >= 0x20);
    assert(t[p2] == '"') by {
        assert(t.subrange(p2, p2 + s2.len() as int)[0] == s2[0]);
    }
    assert(t[p3] == '"') by {
        assert(t.subrange(p3, p3 + s3.len() as int)[0] == s3[0]);
    }
    assert(t[p4] == '"') by {
        assert(t.subrange(p4, p4 + s4.len() as int)[0] == s4[0]);
    }
    assert(t[p5] == '"') by {
        assert(t.subrange(p5, p5 + s5.len() as int)[0] == s5[0]);
    }
    assert(t[p6] == '"') by {
        assert(t.subrange(p6, p6 + s6.len() as int)[0] == s6[0]);
    }
    let acc0 = crate::json::empty_acc();
    let acc1 = crate::json::CardAcc { prompt: Some(cv.prompt), ..acc0 };
    let acc2 = crate::json::CardAcc { response: Some(cv.response), ..acc1 };
    let acc3 = crate::json::CardAcc { hits: Some(cv.hits), ..acc2 };
    let acc4 = crate::json::CardAcc { misses: Some(cv.misses), ..acc3 };
    let acc5 = crate::json::CardAcc { reverse_hits: Some(cv.reverse_hits), ..acc4 };
    let acc6 = crate::json::CardAcc { reverse_misses: Some(cv.reverse_misses), ..acc5 };
    lemma_member_step_text(t, p1, acc0, acc1, key_prompt(), cv.prompt, p2, false);
    lemma_member_step_text(t, p2, acc1, acc2, key_response(), cv.response, p3, false);
    lemma_member_step_count(t, p3, acc2, acc3, key_hits(), cv.hits, p4, false);
    lemma_member_step_count(t, p4, acc3, acc4, key_misses(), cv.misses, p5, false);
    lemma_member_step_count(t, p5, acc4, acc5, key_reverse_hits(), cv.reverse_hits, p6, false);
    lemma_member_step_count(t, p6, acc5, acc6, key_reverse_misses(), cv.reverse_misses, p7, true);
    assert(crate::json::spec_parse_members(t, p1, acc0) == Some((acc6, p7)));
    assert(crate::json::acc_complete(acc6));
    assert(crate::json::acc_view(acc6) == cv);
    lemma_card_unfold(t, i, acc6, p7, cv);
}

/// One unfolding of the card-list parser, from the primitive facts around
/// one card.
#[verifier::spinoff_prover]
proof fn lemma_card_list_unfold(
    t: Seq<char>,
    i: int,
    cv: CardView,
    e: int,
    rest_views: Seq<CardView>,
    e2: int,
    last: bool,
)
    requires
        0 <= i < t.len(),
        crate::json::spec_parse_card(t, i) == Some((cv, e)),
        i < e,
        e < t.len(),
        skip_ws(t, e) == e,
        last ==> t[e] == ']',
        !last ==> t[e] == ',' && e + 1 < t.len() && skip_ws(t, e + 1) == e + 1
            && crate::json::spec_parse_card_list(t, e + 1) == Some((rest_views, e2)),
    ensures
        last ==> crate::json::spec_parse_card_list(t, i) == Some((seq![cv], e + 1)),
        !last ==> crate::json::spec_parse_card_list(t, i) == Some((seq![cv] + rest_views, e2)),
{
}

/// A compact serialized card list followed by the closing bracket reads
/// back as exactly those cards.
#[verifier::rlimit(100)]
#[verifier::spinoff_prover]
pub proof fn lemma_card_list_round_trip(t: Seq<char>, i: int, views: Seq<CardView>)
    requires
        0 <= i,
        views.len() >= 1,
        i + render_items(views, false).len() + 1 <= t.len(),
        t.subrange(i, i + render_items(views, false).len() + 1) == render_items(views, false)
            + seq![']'],
    ensures
        crate::json::spec_parse_card_list(t, i) == Some(
            (views, i + render_items(views, false).len() + 1),
        ),
    decreases views.len(),
{
    let cv = views[0];
    let c0 = render_card(cv, false);
    assert(rendered_items(views, false)[0] == c0);
    if views.len() == 1 {
        assert(render_items(views, false) == c0);
        lemma_subrange_split(t, i, c0, seq![']']);
        lemma_card_round_trip(t, i, cv);
        let e = i + c0.len() as int;
        assert(t[e] == ']') by {
            assert(t.subrange(e, e + 1)[0] == ']');
        }
        assert(skip_ws(t, e) == e);
        lemma_card_list_unfold(t, i, cv, e, Seq::<CardView>::empty(), 0, true);
        assert(seq![cv] =~= views);
    } else {
        let rest = views.drop_first();
        assert(rendered_items(rest, false) =~= rendered_items(views, false).drop_first());
        assert(render_items(views, false) == c0 + seq![','] + render_items(rest, false));
        assert(render_items(views, false) + seq![']'] =~= c0 + (seq![','] + (render_items(
            rest,
            false,
        ) + seq![']'])));
        lemma_subrange_split(t, i, c0, seq![','] + (render_items(rest, false) + seq![']']));
        let e = i + c0.len() as int;
        lemma_subrange_split(t, e, seq![','], render_items(rest, false) + seq![']']);
        lemma_card_round_trip(t, i, cv);
        assert(t[e] == ',') by {
            assert(t.subrange(e, e + 1)[0] == ',');
        }
        assert(skip_ws(t, e) == e);
        assert(t[e + 1] == '{') by {
            assert(t.subrange(e + 1, i + render_items(views, false).len() + 1)[0] == (render_items(
                rest,
                false,
            ) + seq![']'])[0]);
            assert(rendered_items(rest, false)[0] == render_card(rest[0], false));
            assert(render_items(rest, false)[0] == render_card(rest[0], false)[0]);
        }
        assert(skip_ws(t, e + 1) == e + 1);
        lemma_card_list_round_trip(t, e + 1, rest);
        let e2 = e + 1 + render_items(rest, false).len() as int + 1;
        lemma_card_list_unfold(t, i, cv, e, rest, e2, false);
        assert(seq![cv] + rest =~= views);
    }
}

/// The whole compact serialization reads back as exactly the collection it
/// was made from: exporting and importing are inverse.
#[verifier::rlimit(100)]
#[verifier::spinoff_prover]
pub proof fn lemma_cards_round_trip(views: Seq<CardView>)
    ensures
        crate::json::spec_parse_cards(spec_render_cards(views, false)) == Some(views),
{
    let t = spec_render_cards(views, false);
    if views.len() == 0 {
        assert(t[0] == '[' && t[1] == ']');
        assert(skip_ws(t, 0) == 0);
        assert(skip_ws(t, 1) == 1);
        assert(skip_ws(t, 2) == 2);
        assert(Seq::<CardView>::empty() =~= views);
    } else {
        let items = render_items(views, false);
        assert(t == seq!['['] + (items + seq![']'])) by {
            assert(t =~= seq!['['] + (items + seq![']']));
        }
        assert(t.subrange(0, t.len() as int) =~= t);
        lemma_subrange_split(t, 0, seq!['['], items + seq![']']);
        assert(t[0] == '[') by {
            assert(t.subrange(0, 1)[0] == '[');
        }
        assert(skip_ws(t, 0) == 0);
        assert(t[1] == '{') by {
            assert(t.subrange(1, t.len() as int)[0] == (items + seq![']'])[0]);
            assert(rendered_items(views, false)[0] == render_card(views[0], false));
            assert(items[0] == render_card(views[0], false)[0]);
        }
        assert(skip_ws(t, 1) == 1);
        lemma_card_list_round_trip(t, 1, views);
        assert(skip_ws(t, t.len() as int) == t.len());
    }
}

/// The compact serialized text of the collection, for the backing store.
pub fn cards_to_json(cards: &Vec<Card>) -> (r: String)
    ensures
        r@ == spec_render_cards(views_of(cards@), false),
{
    let chars = render_cards_chars(cards, false);
    crate::text::chars_to_string(&chars)
}

/// The pretty-printed serialized text of the collection, for display and
/// clipboard export.
pub fn cards_to_json_pretty(cards: &Vec<Card>) -> (r: String)
    ensures
        r@ == spec_render_cards(views_of(cards@), true),
{
    let chars = render_cards_chars(cards, true);
    crate::text::chars_to_string(&chars)
}

} // verus!
