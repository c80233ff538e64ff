//! The ledger's persistence format: a JSON array of objects with the
//! string fields `recipient`, `subject` and `body`, in ledger order.
//!
//! `json_ledger` is the format's definition: the exact character sequence
//! written for a given sequence of records. `spec_parse_ledger` is its
//! reader: it accepts exactly the texts that `json_ledger` produces and
//! recovers the records. `serialize_ledger` and `parse_ledger` are the
//! executable pair, each proved against its specification;
//! `lemma_parse_round_trip` proves that reading back what was written
//! reproduces every record in order, and `lemma_parse_sound` that only
//! written texts are ever read back.
use vstd::prelude::*;
use crate::SentMessage;
use crate::SentMessageView;

verus! {

/// The hexadecimal digit for a value below 16, lower case.
pub open spec fn hex_digit(n: int) -> char {
    if n == 0 {
        '0'
    } else if n == 1 {
        '1'
    } else if n == 2 {
        '2'
    } else if n == 3 {
        '3'
    } else if n == 4 {
        '4'
    } else if n == 5 {
        '5'
    } else if n == 6 {
        '6'
    } else if n == 7 {
        '7'
    } else if n == 8 {
        '8'
    } else if n == 9 {
        '9'
    } else if n == 10 {
        'a'
    } else if n == 11 {
        'b'
    } else if n == 12 {
        'c'
    } else if n == 13 {
        'd'
    } else if n == 14 {
        'e'
    } else {
        'f'
    }
}

/// The value of a lower-case hexadecimal digit, or -1 for any other character.
pub open spec fn hex_val(c: char) -> int {
    if c == '0' {
        0
    } else if c == '1' {
        1
    } else if c == '2' {
        2
    } else if c == '3' {
        3
    } else if c == '4' {
        4
    } else if c == '5' {
        5
    } else if c == '6' {
        6
    } else if c == '7' {
        7
    } else if c == '8' {
        8
    } else if c == '9' {
        9
    } else if c == 'a' {
        10
    } else if c == 'b' {
        11
    } else if c == 'c' {
        12
    } else if c == 'd' {
        13
    } else if c == 'e' {
        14
    } else if c == 'f' {
        15
    } else {
        -1
    }
}

/// How one character appears inside a JSON string literal: quotes and
/// backslashes get a backslash escape, control characters a `\u00XX`
/// escape, and every other character stands for itself.
pub open spec fn escape_char(c: char) -> Seq<char> {
    if c == '"' {
        seq!['\\', '"']
    } else if c == '\\' {
        seq!['\\', '\\']
    } else if (c as u32) < 32 {
        seq!['\\', 'u', '0', '0', hex_digit((c as u32) as int / 16), hex_digit((c as u32) as int % 16)]
    } else {
        seq![c]
    }
}

/// A whole field escaped for a JSON string literal, character by character.
pub open spec fn escape_text(s: Seq<char>) -> Seq<char>
    decreases s.len(),
{
    if s.len() == 0 {
        Seq::empty()
    } else {
        escape_char(s[0]) + escape_text(s.skip(1))
    }
}

/// One record as a JSON object with the three fields in fixed order.
pub open spec fn json_message(m: SentMessageView) -> Seq<char> {
    "{\"recipient\":\""@ + escape_text(m.recipient) + "\",\"subject\":\""@ + escape_text(m.subject)
        + "\",\"body\":\""@ + escape_text(m.body) + "\"}"@
}

/// The records as comma-separated JSON objects.
pub open spec fn json_messages(s: Seq<SentMessageView>) -> Seq<char>
    decreases s.len(),
{
    if s.len() == 0 {
        Seq::empty()
    } else if s.len() == 1 {
        json_message(s[0])
    } else {
        json_message(s[0]) + seq![','] + json_messages(s.skip(1))
    }
}

/// The persisted text for a ledger: the records as a JSON array.
pub open spec fn json_ledger(s: Seq<SentMessageView>) -> Seq<char> {
    seq!['['] + json_messages(s) + seq![']']
}

/// Relies on std's `String::push`: appends exactly the given character.
#[verifier::external_body]
fn push_char(out: &mut String, c: char)
    ensures
        final(out)@ == old(out)@.push(c),
{
    out.push(c);
}

/// Appending one escaped character extends the escaped text.
proof fn lemma_escape_text_snoc(s: Seq<char>, c: char)
    ensures
        escape_text(s.push(c)) == escape_text(s) + escape_char(c),
    decreases s.len(),
{
    if s.len() == 0 {
        assert(s.push(c).len() == 1);
        assert(s.push(c)[0] == c);
        assert(s.push(c).skip(1) =~= Seq::<char>::empty());
        assert(escape_text(s.push(c)) == escape_char(c) + escape_text(Seq::<char>::empty()));
        assert(escape_text(s.push(c)) =~= escape_text(s) + escape_char(c));
    } else {
        assert(s.push(c)[0] == s[0]);
        assert(s.push(c).skip(1) =~= s.skip(1).push(c));
        lemma_escape_text_snoc(s.skip(1), c);
        assert(escape_text(s.push(c)) == escape_char(s[0]) + (escape_text(s.skip(1))
            + escape_char(c)));
        assert(escape_text(s.push(c)) =~= escape_text(s) + escape_char(c));
    }
}

/// Writes `s` onto `out` with every character escaped for a JSON string
/// literal.
fn write_escaped(out: &mut String, s: &str)
    ensures
        final(out)@ == old(out)@ + escape_text(s@),
{
    let n = s.unicode_len();
    let mut i: usize = 0;
    while i < n
        invariant
            n == s@.len(),
            i <= n,
            out@ == old(out)@ + escape_text(s@.take(i as int)),
        decreases n - i,
    {
        let c = s.get_char(i);
        if c == '"' {
            out.append("\\\"");
            proof {
                reveal_strlit("\\\"");
                assert("\\\""@ =~= escape_char('"'));
            }
        } else if c == '\\' {
            out.append("\\\\");
            proof {
                reveal_strlit("\\\\");
                assert("\\\\"@ =~= escape_char('\\'));
            }
        } else if (c as u32) < 32 {
            let code = c as u32;
            out.append("\\u00");
            push_char(out, hex_digit_exec((code / 16) as u8));
            push_char(out, hex_digit_exec((code % 16) as u8));
            proof {
                reveal_strlit("\\u00");
                assert("\\u00"@ + seq![hex_digit((c as u32) as int / 16)] + seq![
                    hex_digit((c as u32) as int % 16),
                ] =~= escape_char(c));
            }
        } else {
            push_char(out, c);
            proof {
                assert(seq![c] =~= escape_char(c));
            }
        }
        proof {
            lemma_escape_text_snoc(s@.take(i as int), s@[i as int]);
            assert(s@.take(i as int).push(s@[i as int]) =~= s@.take(i + 1 as int));
            assert(out@ =~= old(out)@ + escape_text(s@.take(i + 1 as int)));
        }
        i = i + 1;
    }
    proof {
        assert(s@.take(n as int) =~= s@);
    }
}

/// The hexadecimal digit for a value below 16, lower case.
fn hex_digit_exec(n: u8) -> (c: char)
    requires
        n < 16,
    ensures
        c == hex_digit(n as int),
{
    if n == 0 {
        '0'
    } else if n == 1 {
        '1'
    } else if n == 2 {
        '2'
    } else if n == 3 {
        '3'
    } else if n == 4 {
        '4'
    } else if n == 5 {
        '5'
    } else if n == 6 {
        '6'
    } else if n == 7 {
        '7'
    } else if n == 8 {
        '8'
    } else if n == 9 {
        '9'
    } else if n == 10 {
        'a'
    } else if n == 11 {
        'b'
    } else if n == 12 {
        'c'
    } else if n == 13 {
        'd'
    } else if n == 14 {
        'e'
    } else {
        'f'
    }
}

/// Appending one record extends the comma-separated object list.
proof fn lemma_json_messages_snoc(s: Seq<SentMessageView>, m: SentMessageView)
    ensures
        json_messages(s.push(m)) == if s.len() == 0 {
            json_message(m)
        } else {
            json_messages(s) + seq![','] + json_messages(seq![m])
        },
    decreases s.len(),
{
    if s.len() == 0 {
        assert(s.push(m) =~= seq![m]);
        assert(json_messages(seq![m]) == json_message(m));
    } else {
        assert(s.push(m).skip(1) =~= s.skip(1).push(m));
        lemma_json_messages_snoc(s.skip(1), m);
        if s.len() == 1 {
            assert(s.push(m)[0] == s[0]);
            assert(json_messages(s.push(m)) =~= json_messages(s) + seq![','] + json_messages(
                seq![m],
            ));
        } else {
            assert(s.push(m)[0] == s[0]);
            assert(json_messages(s.push(m)) =~= json_messages(s) + seq![','] + json_messages(
                seq![m],
            ));
        }
    }
}

/// The view of each record in a vector, in order.
pub open spec fn message_views(s: Seq<SentMessage>) -> Seq<SentMessageView> {
    s.map_values(|m: SentMessage| m@)
}

/// Writes the persisted text for the given records: exactly
/// `json_ledger` of their views.
pub fn serialize_ledger(msgs: &Vec<SentMessage>) -> (out: String)
    ensures
        out@ == json_ledger(message_views(msgs@)),
{
    let mut out = String::new();
    push_char(&mut out, '[');
    let ghost views = message_views(msgs@);
    let mut i: usize = 0;
    while i < msgs.len()
        invariant
            views == message_views(msgs@),
            views.len() == msgs@.len(),
            forall|k: int| 0 <= k < msgs@.len() ==> views[k] == msgs@[k]@,
            i <= msgs@.len(),
            out@ == seq!['['] + json_messages(views.take(i as int)),
        decreases msgs@.len() - i,
    {
        if i > 0 {
            push_char(&mut out, ',');
        }
        write_message(&mut out, &msgs[i]);
        proof {
            lemma_json_messages_snoc(views.take(i as int), views[i as int]);
            assert(views.take(i as int).push(views[i as int]) =~= views.take(i + 1 as int));
            assert(json_messages(seq![views[i as int]]) == json_message(views[i as int]));
            assert(out@ =~= seq!['['] + json_messages(views.take(i + 1 as int)));
        }
        i = i + 1;
    }
    push_char(&mut out, ']');
    proof {
        assert(views.take(msgs@.len() as int) =~= views);
        assert(out@ =~= json_ledger(views));
    }
    out
}

/// Writes one record as its JSON object.
fn write_message(out: &mut String, m: &SentMessage)
    ensures
        final(out)@ == old(out)@ + json_message(m@),
{
    out.append("{\"recipient\":\"");
    write_escaped(out, m.recipient.as_str());
    out.append("\",\"subject\":\"");
    write_escaped(out, m.subject.as_str());
    out.append("\",\"body\":\"");
    write_escaped(out, m.body.as_str());
    out.append("\"}");
    proof {
        assert(out@ =~= old(out)@ + json_message(m@));
    }
}


/// The rest of `s` after the prefix `p`, or nothing when `s` does not
/// start with `p`.
pub open spec fn strip_prefix(s: Seq<char>, p: Seq<char>) -> Option<Seq<char>> {
    if p.len() <= s.len() && s.take(p.len() as int) == p {
        Some(s.skip(p.len() as int))
    } else {
        None
    }
}

/// Reads a JSON string literal's characters up to and including its
/// closing quote, undoing the escapes that `escape_char` writes; yields
/// the content and the rest of the input. The opening quote has already
/// been consumed.
pub open spec fn parse_string_rest(s: Seq<char>) -> Option<(Seq<char>, Seq<char>)>
    decreases s.len(),
{
    if s.len() == 0 {
        None
    } else if s[0] == '"' {
        Some((Seq::empty(), s.skip(1)))
    } else if s[0] == '\\' {
        if s.len() < 2 {
            None
        } else if s[1] == '"' || s[1] == '\\' {
            match parse_string_rest(s.skip(2)) {
                Some(p) => Some((seq![s[1]] + p.0, p.1)),
                None => None,
            }
        } else if s[1] == 'u' {
            if s.len() >= 6 && s[2] == '0' && s[3] == '0' && hex_val(s[4]) >= 0 && hex_val(s[5])
                >= 0 && hex_val(s[4]) * 16 + hex_val(s[5]) < 32 {
                match parse_string_rest(s.skip(6)) {
                    Some(p) => Some(
                        (seq![(((hex_val(s[4]) * 16 + hex_val(s[5])) as u32) as char)] + p.0, p.1),
                    ),
                    None => None,
                }
            } else {
                None
            }
        } else {
            None
        }
    } else if (s[0] as u32) < 32 {
        None
    } else {
        match parse_string_rest(s.skip(1)) {
            Some(p) => Some((seq![s[0]] + p.0, p.1)),
            None => None,
        }
    }
}

/// A successful string parse always consumes at least the closing quote.
pub proof fn lemma_parse_string_shrinks(s: Seq<char>)
    ensures
        parse_string_rest(s) matches Some(p) ==> p.1.len() < s.len(),
    decreases s.len(),
{
    if s.len() == 0 {
    } else if s[0] == '"' {
    } else if s[0] == '\\' {
        if s.len() < 2 {
        } else if s[1] == '"' || s[1] == '\\' {
            lemma_parse_string_shrinks(s.skip(2));
        } else if s[1] == 'u' {
            if s.len() >= 6 && s[2] == '0' && s[3] == '0' && hex_val(s[4]) >= 0 && hex_val(s[5])
                >= 0 && hex_val(s[4]) * 16 + hex_val(s[5]) < 32 {
                lemma_parse_string_shrinks(s.skip(6));
            }
        }
    } else if (s[0] as u32) < 32 {
    } else {
        lemma_parse_string_shrinks(s.skip(1));
    }
}

/// Reads one record's JSON object: the three fields in fixed order,
/// yielding the record and the rest of the input.
pub open spec fn parse_message(s: Seq<char>) -> Option<(SentMessageView, Seq<char>)> {
    match strip_prefix(s, "{\"recipient\":\""@) {
        None => None,
        Some(s1) => match parse_string_rest(s1) {
            None => None,
            Some((rec, s2)) => match strip_prefix(s2, ",\"subject\":\""@) {
                None => None,
                Some(s3) => match parse_string_rest(s3) {
                    None => None,
                    Some((sub, s4)) => match strip_prefix(s4, ",\"body\":\""@) {
                        None => None,
                        Some(s5) => match parse_string_rest(s5) {
                            None => None,
                            Some((body, s6)) => match strip_prefix(s6, "}"@) {
                                None => None,
                                Some(s7) => Some(
                                    (SentMessageView { recipient: rec, subject: sub, body }, s7),
                                ),
                            },
                        },
                    },
                },
            },
        },
    }
}

/// A successful record parse always consumes part of the input.
pub proof fn lemma_parse_message_shrinks(s: Seq<char>)
    ensures
        parse_message(s) matches Some(p) ==> p.1.len() < s.len(),
{
    match strip_prefix(s, "{\"recipient\":\""@) {
        None => {},
        Some(s1) => {
            lemma_parse_string_shrinks(s1);
            match parse_string_rest(s1) {
                None => {},
                Some((rec, s2)) => {
                    match strip_prefix(s2, ",\"subject\":\""@) {
                        None => {},
                        Some(s3) => {
                            lemma_parse_string_shrinks(s3);
                            match parse_string_rest(s3) {
                                None => {},
                                Some((sub, s4)) => {
                                    match strip_prefix(s4, ",\"body\":\""@) {
                                        None => {},
                                        Some(s5) => {
                                            lemma_parse_string_shrinks(s5);
                                        },
                                    }
                                },
                            }
                        },
                    }
                },
            }
        },
    }
}

/// Reads the comma-separated records up to a final `]` that must end the
/// input.
pub open spec fn parse_items(s: Seq<char>) -> Option<Seq<SentMessageView>>
    decreases s.len(),
{
    match parse_message(s) {
        None => None,
        Some((m, r)) => {
            if r == "]"@ {
                Some(seq![m])
            } else {
                match strip_prefix(r, ","@) {
                    None => None,
                    Some(r2) => {
                        proof {
                            lemma_parse_message_shrinks(s);
                        }
                        match parse_items(r2) {
                            None => None,
                            Some(v) => Some(seq![m] + v),
                        }
                    },
                }
            }
        },
    }
}

/// The reader for the whole persisted text: exactly the texts that
/// `json_ledger` writes are accepted, and the records are recovered in
/// order.
pub open spec fn spec_parse_ledger(s: Seq<char>) -> Option<Seq<SentMessageView>> {
    match strip_prefix(s, "["@) {
        None => None,
        Some(r) => {
            if r == "]"@ {
                Some(Seq::empty())
            } else {
                parse_items(r)
            }
        },
    }
}

/// Stripping a prefix off a text that starts with it leaves the rest.
proof fn lemma_strip_prefix_concat(p: Seq<char>, rest: Seq<char>)
    ensures
        strip_prefix(p + rest, p) == Some(rest),
{
    assert((p + rest).take(p.len() as int) =~= p);
    assert((p + rest).skip(p.len() as int) =~= rest);
}

/// A lower-case hexadecimal digit reads back as its value.
proof fn lemma_hex_round(n: int)
    requires
        0 <= n < 16,
    ensures
        hex_val(hex_digit(n)) == n,
{
}

/// Reading an escaped field back yields the field: `parse_string_rest`
/// undoes `escape_text`.
proof fn lemma_parse_escaped(content: Seq<char>, rest: Seq<char>)
    ensures
        parse_string_rest(escape_text(content) + seq!['"'] + rest) == Some((content, rest)),
    decreases content.len(),
{
    let s = escape_text(content) + seq!['"'] + rest;
    if content.len() == 0 {
        assert(s =~= seq!['"'] + rest);
        assert(s[0] == '"');
        assert(s.skip(1) =~= rest);
        assert(Seq::<char>::empty() =~= content);
    } else {
        let c = content[0];
        let tail = escape_text(content.skip(1));
        assert(escape_text(content) == escape_char(c) + tail);
        lemma_parse_escaped(content.skip(1), rest);
        if c == '"' || c == '\\' {
            assert(s =~= seq!['\\', c] + (tail + seq!['"'] + rest));
            assert(s[0] == '\\' && s[1] == c);
            assert(s.skip(2) =~= tail + seq!['"'] + rest);
            assert(seq![c] + content.skip(1) =~= content);
        } else if (c as u32) < 32 {
            let code = (c as u32) as int;
            let h1 = hex_digit(code / 16);
            let h2 = hex_digit(code % 16);
            assert(s =~= seq!['\\', 'u', '0', '0', h1, h2] + (tail + seq!['"'] + rest));
            assert(s[0] == '\\' && s[1] == 'u' && s[2] == '0' && s[3] == '0' && s[4] == h1 && s[5]
                == h2);
            lemma_hex_round(code / 16);
            lemma_hex_round(code % 16);
            assert(hex_val(s[4]) * 16 + hex_val(s[5]) == code);
            assert(((code as u32) as char) == c) by {
                vstd::utf8::char_u32_cast(c, c as u32);
            }
            assert(s.skip(6) =~= tail + seq!['"'] + rest);
            assert(seq![c] + content.skip(1) =~= content);
        } else {
            assert(s =~= seq![c] + (tail + seq!['"'] + rest));
            assert(s[0] == c);
            assert(s.skip(1) =~= tail + seq!['"'] + rest);
            assert(seq![c] + content.skip(1) =~= content);
        }
    }
}


/// Reading one record's object back yields the record: `parse_message`
/// undoes `json_message`, leaving whatever follows.
proof fn lemma_parse_message_complete(m: SentMessageView, rest: Seq<char>)
    ensures
        parse_message(json_message(m) + rest) == Some((m, rest)),
{
    let s = json_message(m) + rest;
    reveal_strlit("{\"recipient\":\"");
    reveal_strlit("\",\"subject\":\"");
    reveal_strlit(",\"subject\":\"");
    reveal_strlit("\",\"body\":\"");
    reveal_strlit(",\"body\":\"");
    reveal_strlit("\"}");
    reveal_strlit("}");
    let r1 = escape_text(m.recipient) + seq!['"'] + (",\"subject\":\""@ + (escape_text(m.subject)
        + seq!['"'] + (",\"body\":\""@ + (escape_text(m.body) + seq!['"'] + ("}"@ + rest)))));
    assert(s =~= "{\"recipient\":\""@ + r1);
    lemma_strip_prefix_concat("{\"recipient\":\""@, r1);
    assert(strip_prefix(s, "{\"recipient\":\""@) == Some(r1));
    let t1 = ",\"subject\":\""@ + (escape_text(m.subject) + seq!['"'] + (",\"body\":\""@ + (
    escape_text(m.body) + seq!['"'] + ("}"@ + rest))));
    lemma_parse_escaped(m.recipient, t1);
    assert(r1 =~= escape_text(m.recipient) + seq!['"'] + t1);
    assert(parse_string_rest(r1) == Some((m.recipient, t1)));
    let t2 = escape_text(m.subject) + seq!['"'] + (",\"body\":\""@ + (escape_text(m.body)
        + seq!['"'] + ("}"@ + rest)));
    assert(t1 =~= ",\"subject\":\""@ + t2);
    lemma_strip_prefix_concat(",\"subject\":\""@, t2);
    assert(strip_prefix(t1, ",\"subject\":\""@) == Some(t2));
    let t3 = ",\"body\":\""@ + (escape_text(m.body) + seq!['"'] + ("}"@ + rest));
    lemma_parse_escaped(m.subject, t3);
    assert(t2 =~= escape_text(m.subject) + seq!['"'] + t3);
    assert(parse_string_rest(t2) == Some((m.subject, t3)));
    let t4 = escape_text(m.body) + seq!['"'] + ("}"@ + rest);
    assert(t3 =~= ",\"body\":\""@ + t4);
    lemma_strip_prefix_concat(",\"body\":\""@, t4);
    assert(strip_prefix(t3, ",\"body\":\""@) == Some(t4));
    let t5 = "}"@ + rest;
    lemma_parse_escaped(m.body, t5);
    assert(t4 =~= escape_text(m.body) + seq!['"'] + t5);
    assert(parse_string_rest(t4) == Some((m.body, t5)));
    lemma_strip_prefix_concat("}"@, rest);
    assert(strip_prefix(t5, "}"@) == Some(rest));
    assert((SentMessageView { recipient: m.recipient, subject: m.subject, body: m.body }) == m);
}

/// Reading the record list back yields the records in order.
proof fn lemma_parse_items_complete(v: Seq<SentMessageView>)
    requires
        v.len() > 0,
    ensures
        parse_items(json_messages(v) + seq![']']) == Some(v),
    decreases v.len(),
{
    let s = json_messages(v) + seq![']'];
    reveal_strlit("]");
    reveal_strlit(",");
    reveal_strlit("{\"recipient\":\"");
    if v.len() == 1 {
        assert(json_messages(v) == json_message(v[0]));
        lemma_parse_message_complete(v[0], seq![']']);
        assert(parse_message(s) == Some((v[0], seq![']'])));
        assert(seq![']'] =~= "]"@);
        assert(seq![v[0]] =~= v);
    } else {
        let rest = seq![','] + (json_messages(v.skip(1)) + seq![']']);
        assert(s =~= json_message(v[0]) + rest);
        lemma_parse_message_complete(v[0], rest);
        assert(parse_message(s) == Some((v[0], rest)));
        assert(rest.len() >= 2) by {
            assert(json_messages(v.skip(1)).len() >= 0);
        }
        assert(rest != "]"@) by {
            assert("]"@.len() == 1);
        }
        assert(rest =~= ","@ + (json_messages(v.skip(1)) + seq![']']));
        lemma_strip_prefix_concat(","@, json_messages(v.skip(1)) + seq![']']);
        assert(strip_prefix(rest, ","@) == Some(json_messages(v.skip(1)) + seq![']']));
        lemma_parse_items_complete(v.skip(1));
        assert(seq![v[0]] + v.skip(1) =~= v);
    }
}

/// The format round-trips: reading back the persisted text of any record
/// sequence yields exactly that sequence, in order.
pub proof fn lemma_parse_round_trip(v: Seq<SentMessageView>)
    ensures
        spec_parse_ledger(json_ledger(v)) == Some(v),
{
    let s = json_ledger(v);
    reveal_strlit("[");
    reveal_strlit("]");
    reveal_strlit("{\"recipient\":\"");
    assert(s =~= "["@ + (json_messages(v) + seq![']']));
    lemma_strip_prefix_concat("["@, json_messages(v) + seq![']']);
    let r = json_messages(v) + seq![']'];
    assert(strip_prefix(s, "["@) == Some(r));
    if v.len() == 0 {
        assert(r =~= "]"@);
        assert(Seq::<SentMessageView>::empty() =~= v);
    } else {
        assert(json_messages(v)[0] == '{') by {
            if v.len() == 1 {
                assert(json_messages(v) == json_message(v[0]));
            }
            assert(json_message(v[0])[0] == "{\"recipient\":\""@[0]);
        }
        assert(r != "]"@) by {
            assert(r[0] == '{');
            assert("]"@[0] == ']');
            assert("]"@.len() == 1);
        }
        lemma_parse_items_complete(v);
    }
}


/// The value of a lower-case hexadecimal digit, if it is one.
fn hex_val_exec(c: char) -> (r: Option<u8>)
    ensures
        match r {
            Some(v) => hex_val(c) == v && v < 16,
            None => hex_val(c) < 0,
        },
{
    if c == '0' {
        Some(0)
    } else if c == '1' {
        Some(1)
    } else if c == '2' {
        Some(2)
    } else if c == '3' {
        Some(3)
    } else if c == '4' {
        Some(4)
    } else if c == '5' {
        Some(5)
    } else if c == '6' {
        Some(6)
    } else if c == '7' {
        Some(7)
    } else if c == '8' {
        Some(8)
    } else if c == '9' {
        Some(9)
    } else if c == 'a' {
        Some(10)
    } else if c == 'b' {
        Some(11)
    } else if c == 'c' {
        Some(12)
    } else if c == 'd' {
        Some(13)
    } else if c == 'e' {
        Some(14)
    } else if c == 'f' {
        Some(15)
    } else {
        None
    }
}

/// Checks that `lit` stands at position `i` of `s`; yields the position
/// after it.
fn expect_lit(s: &str, i: usize, lit: &str) -> (r: Option<usize>)
    requires
        i <= s@.len(),
    ensures
        match r {
            Some(j) => i <= j <= s@.len() && strip_prefix(s@.skip(i as int), lit@) == Some(
                s@.skip(j as int),
            ),
            None => strip_prefix(s@.skip(i as int), lit@) == None::<Seq<char>>,
        },
{
    let n = s.unicode_len();
    let m = lit.unicode_len();
    if n - i < m {
        return None;
    }
    let mut k: usize = 0;
    while k < m
        invariant
            n == s@.len(),
            m == lit@.len(),
            i + m <= n,
            k <= m,
            forall|q: int| 0 <= q < k ==> s@[i + q] == lit@[q],
        decreases m - k,
    {
        let cs = s.get_char(i + k);
        let cl = lit.get_char(k);
        if cs != cl {
            proof {
                let suffix = s@.skip(i as int);
                assert(suffix.take(m as int)[k as int] != lit@[k as int]);
                assert(suffix.take(m as int) != lit@);
            }
            return None;
        }
        k = k + 1;
    }
    proof {
        let suffix = s@.skip(i as int);
        assert(suffix.take(m as int) =~= lit@);
        assert(suffix.skip(m as int) =~= s@.skip(i + m as int));
    }
    Some(i + m)
}

/// Reads a JSON string literal's content from position `i` of `s` (the
/// opening quote already consumed), as `parse_string_rest` does.
fn parse_string_at(s: &str, i: usize) -> (r: Option<(String, usize)>)
    requires
        i <= s@.len(),
    ensures
        match r {
            Some(p) => p.1 <= s@.len() && parse_string_rest(s@.skip(i as int)) == Some(
                (p.0@, s@.skip(p.1 as int)),
            ),
            None => parse_string_rest(s@.skip(i as int)) == None::<(Seq<char>, Seq<char>)>,
        },
{
    let n = s.unicode_len();
    let mut content = String::new();
    let mut j: usize = i;
    loop
        invariant
            n == s@.len(),
            i <= j <= n,
            match parse_string_rest(s@.skip(j as int)) {
                Some(p) => parse_string_rest(s@.skip(i as int)) == Some((content@ + p.0, p.1)),
                None => parse_string_rest(s@.skip(i as int)) == None::<(Seq<char>, Seq<char>)>,
            },
        decreases n - j,
    {
        if j >= n {
            return None;
        }
        let c = s.get_char(j);
        proof {
            assert(s@.skip(j as int)[0] == c);
            assert(s@.skip(j as int).len() == n - j);
        }
        if c == '"' {
            proof {
                assert(s@.skip(j as int).skip(1) =~= s@.skip(j + 1 as int));
                assert(parse_string_rest(s@.skip(j as int)) == Some(
                    (Seq::<char>::empty(), s@.skip(j + 1 as int)),
                ));
                assert(content@ + Seq::<char>::empty() =~= content@);
            }
            return Some((content, j + 1));
        } else if c == '\\' {
            if j + 1 >= n {
                return None;
            }
            let c2 = s.get_char(j + 1);
            proof {
                assert(s@.skip(j as int)[1] == c2);
            }
            if c2 == '"' || c2 == '\\' {
                push_char(&mut content, c2);
                proof {
                    assert(s@.skip(j as int).skip(2) =~= s@.skip(j + 2 as int));
                    lemma_prepend_assoc(content@, c2, s@.skip(j + 2 as int));
                }
                j = j + 2;
            } else if c2 == 'u' {
                if n - j < 6 {
                    return None;
                }
                let d2 = s.get_char(j + 2);
                let d3 = s.get_char(j + 3);
                let d4 = s.get_char(j + 4);
                let d5 = s.get_char(j + 5);
                proof {
                    assert(s@.skip(j as int)[2] == d2);
                    assert(s@.skip(j as int)[3] == d3);
                    assert(s@.skip(j as int)[4] == d4);
                    assert(s@.skip(j as int)[5] == d5);
                }
                if d2 != '0' || d3 != '0' {
                    return None;
                }
                let v4 = hex_val_exec(d4);
                let v5 = hex_val_exec(d5);
                match (v4, v5) {
                    (Some(h1), Some(h2)) => {
                        let code: u8 = h1 * 16 + h2;
                        if code >= 32 {
                            return None;
                        }
                        let decoded = code as char;
                        proof {
                            assert((((hex_val(d4) * 16 + hex_val(d5)) as u32) as char) == decoded);
                            assert(s@.skip(j as int).skip(6) =~= s@.skip(j + 6 as int));
                            lemma_prepend_assoc(content@, decoded, s@.skip(j + 6 as int));
                        }
                        push_char(&mut content, decoded);
                        j = j + 6;
                    },
                    _ => {
                        return None;
                    },
                }
            } else {
                return None;
            }
        } else if (c as u32) < 32 {
            return None;
        } else {
            push_char(&mut content, c);
            proof {
                assert(s@.skip(j as int).skip(1) =~= s@.skip(j + 1 as int));
                lemma_prepend_assoc(content@, c, s@.skip(j + 1 as int));
            }
            j = j + 1;
        }
    }
}

/// Extending the gathered content by one character commutes with
/// prepending it to the remainder's content.
proof fn lemma_prepend_assoc(content: Seq<char>, c: char, after: Seq<char>)
    ensures
        forall|p0: Seq<char>| content.push(c) + p0 =~= content + (seq![c] + p0),
{
}


/// Reads one record's JSON object from position `i` of `s`, as
/// `parse_message` does.
fn parse_message_at(s: &str, i: usize) -> (r: Option<(SentMessage, usize)>)
    requires
        i <= s@.len(),
    ensures
        match r {
            Some(p) => p.1 <= s@.len() && parse_message(s@.skip(i as int)) == Some(
                (p.0@, s@.skip(p.1 as int)),
            ),
            None => parse_message(s@.skip(i as int)) == None::<(SentMessageView, Seq<char>)>,
        },
{
    let i1 = match expect_lit(s, i, "{\"recipient\":\"") {
        Some(j) => j,
        None => {
            return None;
        },
    };
    let (recipient, i2) = match parse_string_at(s, i1) {
        Some(p) => p,
        None => {
            return None;
        },
    };
    let i3 = match expect_lit(s, i2, ",\"subject\":\"") {
        Some(j) => j,
        None => {
            return None;
        },
    };
    let (subject, i4) = match parse_string_at(s, i3) {
        Some(p) => p,
        None => {
            return None;
        },
    };
    let i5 = match expect_lit(s, i4, ",\"body\":\"") {
        Some(j) => j,
        None => {
            return None;
        },
    };
    let (body, i6) = match parse_string_at(s, i5) {
        Some(p) => p,
        None => {
            return None;
        },
    };
    let i7 = match expect_lit(s, i6, "}") {
        Some(j) => j,
        None => {
            return None;
        },
    };
    Some((SentMessage { recipient, subject, body }, i7))
}

/// Reads the persisted text back into records: the result is exactly
/// `spec_parse_ledger` of the text, so a text that `json_ledger` wrote
/// yields its records and any other text yields nothing.
pub fn parse_ledger(s: &str) -> (r: Option<Vec<SentMessage>>)
    ensures
        match r {
            Some(v) => spec_parse_ledger(s@) == Some(message_views(v@)),
            None => spec_parse_ledger(s@) == None::<Seq<SentMessageView>>,
        },
{
    let n = s.unicode_len();
    proof {
        assert(s@.skip(0) =~= s@);
    }
    let i0 = match expect_lit(s, 0, "[") {
        Some(j) => j,
        None => {
            return None;
        },
    };
    if n - i0 == 1 && s.get_char(i0) == ']' {
        proof {
            reveal_strlit("]");
            assert(s@.skip(i0 as int) =~= "]"@);
            assert(message_views(Seq::<SentMessage>::empty()) =~= Seq::<SentMessageView>::empty());
        }
        return Some(Vec::new());
    }
    proof {
        lemma_remainder_not_bracket(s@, i0 as int, n as int);
    }
    let mut result: Vec<SentMessage> = Vec::new();
    let mut i = i0;
    loop
        invariant
            n == s@.len(),
            i <= n,
            match parse_items(s@.skip(i as int)) {
                Some(v) => spec_parse_ledger(s@) == Some(message_views(result@) + v),
                None => spec_parse_ledger(s@) == None::<Seq<SentMessageView>>,
            },
        decreases n - i,
    {
        let (m, j) = match parse_message_at(s, i) {
            Some(p) => p,
            None => {
                return None;
            },
        };
        proof {
            lemma_parse_message_shrinks(s@.skip(i as int));
            assert(s@.skip(j as int).len() < s@.skip(i as int).len());
        }
        let ghost old_result = result@;
        result.push(m);
        proof {
            assert(message_views(old_result.push(m)) =~= message_views(old_result) + seq![m@]);
        }
        if n - j == 1 && s.get_char(j) == ']' {
            proof {
                reveal_strlit("]");
                assert(s@.skip(j as int) =~= "]"@);
                assert(parse_items(s@.skip(i as int)) == Some(seq![m@]));
                assert(message_views(old_result) + seq![m@] =~= message_views(result@));
            }
            return Some(result);
        }
        proof {
            lemma_remainder_not_bracket(s@, j as int, n as int);
        }
        let j2 = match expect_lit(s, j, ",") {
            Some(j2) => j2,
            None => {
                return None;
            },
        };
        proof {
            reveal_strlit(",");
            assert(s@.skip(j2 as int).len() == s@.skip(j as int).len() - 1);
            match parse_items(s@.skip(j2 as int)) {
                Some(v) => {
                    assert(parse_items(s@.skip(i as int)) == Some(seq![m@] + v));
                    assert(message_views(old_result) + (seq![m@] + v) =~= message_views(result@)
                        + v);
                },
                None => {},
            }
        }
        i = j2;
    }
}

/// A remainder that fails the one-character `]` test is not `"]"`.
proof fn lemma_remainder_not_bracket(s: Seq<char>, i: int, n: int)
    requires
        n == s.len(),
        0 <= i <= n,
        !(n - i == 1 && s[i] == ']'),
    ensures
        s.skip(i) != "]"@,
{
    reveal_strlit("]");
    if s.skip(i) == "]"@ {
        assert(s.skip(i).len() == 1);
        assert(s.skip(i)[0] == ']');
        assert(s[i] == ']');
    }
}


/// A hexadecimal digit character is recovered from its value.
proof fn lemma_hex_digit_of_val(c: char)
    requires
        hex_val(c) >= 0,
    ensures
        hex_digit(hex_val(c)) == c,
{
}

/// A string parse only accepts the escaped form: the input it consumed
/// is exactly the content's escaped text and the closing quote.
proof fn lemma_parse_string_sound(s: Seq<char>)
    ensures
        parse_string_rest(s) matches Some(p) ==> s == escape_text(p.0) + seq!['"'] + p.1,
    decreases s.len(),
{
    if s.len() == 0 {
    } else if s[0] == '"' {
        match parse_string_rest(s) {
            Some(p) => {
                assert(s =~= escape_text(p.0) + seq!['"'] + p.1);
            },
            None => {},
        }
    } else if s[0] == '\\' {
        if s.len() < 2 {
        } else if s[1] == '"' || s[1] == '\\' {
            lemma_parse_string_sound(s.skip(2));
            match parse_string_rest(s.skip(2)) {
                Some(p) => {
                    let x = escape_text(p.0) + seq!['"'] + p.1;
                    assert(s.skip(2) == x);
                    let content = seq![s[1]] + p.0;
                    assert(content[0] == s[1]);
                    assert(content.skip(1) =~= p.0);
                    assert(escape_text(content) == escape_char(s[1]) + escape_text(p.0));
                    assert(escape_char(s[1]) =~= seq!['\\', s[1]]);
                    assert(s =~= seq!['\\', s[1]] + s.skip(2));
                    assert(seq!['\\', s[1]] + x =~= escape_text(content) + seq!['"'] + p.1);
                },
                None => {},
            }
        } else if s[1] == 'u' {
            if s.len() >= 6 && s[2] == '0' && s[3] == '0' && hex_val(s[4]) >= 0 && hex_val(s[5])
                >= 0 && hex_val(s[4]) * 16 + hex_val(s[5]) < 32 {
                lemma_parse_string_sound(s.skip(6));
                match parse_string_rest(s.skip(6)) {
                    Some(p) => {
                        let h1 = hex_val(s[4]);
                        let h2 = hex_val(s[5]);
                        let code = h1 * 16 + h2;
                        let d = ((code as u32) as char);
                        assert((d as u32) == code as u32);
                        assert((d as u32) < 32);
                        let x = escape_text(p.0) + seq!['"'] + p.1;
                        assert(s.skip(6) == x);
                        let content = seq![d] + p.0;
                        assert(content[0] == d);
                        assert(content.skip(1) =~= p.0);
                        assert(escape_text(content) == escape_char(d) + escape_text(p.0));
                        assert((d as u32) as int / 16 == h1 && (d as u32) as int % 16 == h2) by {
                            if h1 == 0 {
                                assert(code == h2);
                            } else {
                                assert(h1 == 1);
                                assert(code == 16 + h2);
                            }
                        }
                        lemma_hex_digit_of_val(s[4]);
                        lemma_hex_digit_of_val(s[5]);
                        assert(escape_char(d) =~= seq!['\\', 'u', '0', '0', s[4], s[5]]);
                        assert(s =~= seq!['\\', 'u', '0', '0', s[4], s[5]] + s.skip(6));
                        assert(seq!['\\', 'u', '0', '0', s[4], s[5]] + x =~= escape_text(content)
                            + seq!['"'] + p.1);
                    },
                    None => {},
                }
            }
        }
    } else if (s[0] as u32) < 32 {
    } else {
        lemma_parse_string_sound(s.skip(1));
        match parse_string_rest(s.skip(1)) {
            Some(p) => {
                let x = escape_text(p.0) + seq!['"'] + p.1;
                assert(s.skip(1) == x);
                let content = seq![s[0]] + p.0;
                assert(content[0] == s[0]);
                assert(content.skip(1) =~= p.0);
                assert(escape_text(content) == escape_char(s[0]) + escape_text(p.0));
                assert(escape_char(s[0]) =~= seq![s[0]]);
                assert(s =~= seq![s[0]] + s.skip(1));
                assert(seq![s[0]] + x =~= escape_text(content) + seq!['"'] + p.1);
            },
            None => {},
        }
    }
}

/// A record parse only accepts the written form: the input it consumed
/// is exactly the record's JSON object.
#[verifier::rlimit(60)]
proof fn lemma_parse_message_sound(s: Seq<char>)
    ensures
        parse_message(s) matches Some(p) ==> s == json_message(p.0) + p.1,
{
    reveal_strlit("{\"recipient\":\"");
    reveal_strlit("\",\"subject\":\"");
    reveal_strlit(",\"subject\":\"");
    reveal_strlit("\",\"body\":\"");
    reveal_strlit(",\"body\":\"");
    reveal_strlit("\"}");
    reveal_strlit("}");
    match strip_prefix(s, "{\"recipient\":\""@) {
        None => {},
        Some(s1) => {
            assert(s =~= "{\"recipient\":\""@ + s1);
            lemma_parse_string_sound(s1);
            match parse_string_rest(s1) {
                None => {},
                Some((rec, s2)) => {
                    match strip_prefix(s2, ",\"subject\":\""@) {
                        None => {},
                        Some(s3) => {
                            assert(s2 =~= ",\"subject\":\""@ + s3);
                            lemma_parse_string_sound(s3);
                            match parse_string_rest(s3) {
                                None => {},
                                Some((sub, s4)) => {
                                    match strip_prefix(s4, ",\"body\":\""@) {
                                        None => {},
                                        Some(s5) => {
                                            assert(s4 =~= ",\"body\":\""@ + s5);
                                            lemma_parse_string_sound(s5);
                                            match parse_string_rest(s5) {
                                                None => {},
                                                Some((body, s6)) => {
                                                    match strip_prefix(s6, "}"@) {
                                                        None => {},
                                                        Some(s7) => {
                                                            assert(s6 =~= "}"@ + s7);
                                                            let m = SentMessageView {
                                                                recipient: rec,
                                                                subject: sub,
                                                                body,
                                                            };
                                                            assert(s =~= json_message(m) + s7);
                                                        },
                                                    }
                                                },
                                            }
                                        },
                                    }
                                },
                            }
                        },
                    }
                },
            }
        },
    }
}

/// A record-list parse only accepts the written form: the input is
/// exactly the records' comma-separated objects and the final `]`.
proof fn lemma_parse_items_sound(s: Seq<char>)
    ensures
        parse_items(s) matches Some(v) ==> v.len() > 0 && s == json_messages(v) + seq![']'],
    decreases s.len(),
{
    reveal_strlit("]");
    reveal_strlit(",");
    lemma_parse_message_sound(s);
    lemma_parse_message_shrinks(s);
    match parse_message(s) {
        None => {},
        Some((m, r)) => {
            if r == "]"@ {
                assert(json_messages(seq![m]) == json_message(m));
                assert(r =~= seq![']']);
                assert(s =~= json_messages(seq![m]) + seq![']']);
            } else {
                match strip_prefix(r, ","@) {
                    None => {},
                    Some(r2) => {
                        assert(r =~= ","@ + r2);
                        lemma_parse_items_sound(r2);
                        match parse_items(r2) {
                            None => {},
                            Some(v2) => {
                                let v = seq![m] + v2;
                                assert(v[0] == m);
                                assert(v.skip(1) =~= v2);
                                assert(v.len() > 1);
                                assert(json_messages(v) == json_message(m) + seq![',']
                                    + json_messages(v2));
                                assert(seq![','] =~= ","@);
                                assert(s =~= json_messages(v) + seq![']']);
                            },
                        }
                    },
                }
            }
        },
    }
}

/// Law: the reader accepts exactly the writer's texts — whenever a text
/// reads back as a record sequence, it is that sequence's persisted
/// text, so each ledger state has one persisted form and each accepted
/// file one meaning.
pub proof fn lemma_parse_sound(s: Seq<char>)
    ensures
        spec_parse_ledger(s) matches Some(v) ==> s == json_ledger(v),
{
    reveal_strlit("[");
    reveal_strlit("]");
    match strip_prefix(s, "["@) {
        None => {},
        Some(r) => {
            assert(s =~= "["@ + r);
            if r == "]"@ {
                assert(json_messages(Seq::<SentMessageView>::empty())
                    == Seq::<char>::empty());
                assert(s =~= json_ledger(Seq::<SentMessageView>::empty()));
            } else {
                lemma_parse_items_sound(r);
                match parse_items(r) {
                    None => {},
                    Some(v) => {
                        assert(s =~= json_ledger(v));
                    },
                }
            }
        },
    }
}

} // verus!
