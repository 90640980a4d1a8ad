use vstd::prelude::*;

use crate::snapshot::PkgModel;
use crate::snapshot::SnapModel;
use crate::timestamp::Timestamp;
use crate::toml_text::esc;
use crate::toml_text::esc_char;
use crate::toml_text::hex_digit;
use crate::toml_text::key_datetime;
use crate::toml_text::key_name;
use crate::toml_text::key_version;
use crate::toml_text::quote_nl;
use crate::toml_text::rfc3339_of;
use crate::toml_text::table_header;
use crate::toml_text::table_of;
use crate::toml_text::tables_of;
use crate::toml_text::toml_of;

verus! {

// --- A reader for the emitted documents ---------------------------------
//
// `parse_toml` below is a parser, in specification form, for the TOML
// documents this crate emits: quoted basic strings with the escapes the
// serializer uses, an RFC 3339 date-time, and one `[[package_infos]]`
// table per record. It exists to state and prove the round-trip law
// `lemma_toml_round_trip`: a serialized snapshot parses back to exactly
// the model it came from, so the document loses nothing.
/// The value of one hex digit character, or -1.
pub open spec fn hex_val(c: char) -> int {
    if c == '0' {
        0
    } else if c == '1' {
        1
    } else if c == '2' {
        2
    } else if c == '3' {
        3
    } else if c == '4' {
        4
    } else if c == '5' {
        5
    } else if c == '6' {
        6
    } else if c == '7' {
        7
    } else if c == '8' {
        8
    } else if c == '9' {
        9
    } else if c == 'A' {
        10
    } else if c == 'B' {
        11
    } else if c == 'C' {
        12
    } else if c == 'D' {
        13
    } else if c == 'E' {
        14
    } else if c == 'F' {
        15
    } else {
        -1
    }
}

pub open spec fn is_hex(c: char) -> bool {
    hex_val(c) >= 0
}

pub open spec fn is_dec(c: char) -> bool {
    0 <= hex_val(c) <= 9
}

pub proof fn lemma_hex_digit_val(v: int)
    requires
        0 <= v < 16,
    ensures
        hex_val(hex_digit(v)) == v,
{
}

/// Reads a TOML basic string from the start of `t`, up to and including
/// the closing quote: the string's value and the count of characters
/// consumed.
pub open spec fn parse_string(t: Seq<char>) -> Option<(Seq<char>, int)>
    decreases t.len(),
{
    if t.len() == 0 {
        None
    } else if t[0] == '"' {
        Some((Seq::empty(), 1))
    } else if t[0] == '\\' {
        if t.len() >= 2 && (t[1] == '"' || t[1] == '\\') {
            match parse_string(t.skip(2)) {
                Some(p) => Some((seq![t[1]] + p.0, 2 + p.1)),
                None => None,
            }
        } else if t.len() >= 6 && t[1] == 'u' && t[2] == '0' && t[3] == '0' && is_hex(t[4])
            && is_hex(t[5]) {
            match parse_string(t.skip(6)) {
                Some(p) => Some(
                    (seq![(((hex_val(t[4]) * 16 + hex_val(t[5])) as u32) as char)] + p.0, 6 + p.1),
                ),
                None => None,
            }
        } else {
            None
        }
    } else {
        match parse_string(t.skip(1)) {
            Some(p) => Some((seq![t[0]] + p.0, 1 + p.1)),
            None => None,
        }
    }
}

/// Reading back an escaped string, closing quote appended, recovers the
/// string exactly, whatever follows the quote.
pub proof fn lemma_parse_esc(x: Seq<char>, rest: Seq<char>)
    ensures
        parse_string(esc(x) + seq!['"'] + rest) == Some((x, (esc(x).len() + 1) as int)),
    decreases x.len(),
{
    let t = esc(x) + seq!['"'] + rest;
    if x.len() == 0 {
        assert(t =~= seq!['"'] + rest);
        assert(t[0] == '"');
        assert(x =~= Seq::<char>::empty());
    } else {
        let c = x[0];
        let x2 = x.drop_first();
        let t2 = esc(x2) + seq!['"'] + rest;
        lemma_parse_esc(x2, rest);
        assert(esc(x) == esc_char(c) + esc(x2));
        assert(t =~= esc_char(c) + t2);
        if c == '"' || c == '\\' {
            assert(t[0] == '\\' && t[1] == c);
            assert(t.skip(2) =~= t2);
            assert(seq![c] + x2 =~= x);
        } else if (c as u32) < 0x20 || (c as u32) == 0x7f {
            let u = c as u32;
            assert(t[0] == '\\' && t[1] == 'u' && t[2] == '0' && t[3] == '0');
            assert(t[4] == hex_digit((u / 16) as int));
            assert(t[5] == hex_digit((u % 16) as int));
            lemma_hex_digit_val((u / 16) as int);
            lemma_hex_digit_val((u % 16) as int);
            let v = hex_val(t[4]) * 16 + hex_val(t[5]);
            vstd::arithmetic::div_mod::lemma_fundamental_div_mod(u as int, 16);
            assert(v == u);
            vstd::utf8::char_u32_cast(c, u);
            assert(((v as u32) as char) == c);
            assert(t.skip(6) =~= t2);
            assert(seq![c] + x2 =~= x);
        } else {
            assert(t[0] == c && c != '"' && c != '\\');
            assert(t.skip(1) =~= t2);
            assert(seq![c] + x2 =~= x);
        }
    }
}

pub open spec fn parse_d2(t: Seq<char>, at: int) -> int {
    hex_val(t[at]) * 10 + hex_val(t[at + 1])
}

/// `YYYY-MM-DDThh:mm:ssZ` at the start of `t`.
pub open spec fn rfc_shape(t: Seq<char>) -> bool {
    &&& t.len() >= 20
    &&& is_dec(t[0]) && is_dec(t[1]) && is_dec(t[2]) && is_dec(t[3])
    &&& t[4] == '-' && is_dec(t[5]) && is_dec(t[6]) && t[7] == '-'
    &&& is_dec(t[8]) && is_dec(t[9]) && t[10] == 'T'
    &&& is_dec(t[11]) && is_dec(t[12]) && t[13] == ':'
    &&& is_dec(t[14]) && is_dec(t[15]) && t[16] == ':'
    &&& is_dec(t[17]) && is_dec(t[18]) && t[19] == 'Z'
}

/// Reads the twenty-character RFC 3339 instant from the start of `t`.
pub open spec fn parse_rfc(t: Seq<char>) -> Option<Timestamp> {
    if rfc_shape(t) {
        let ts = Timestamp {
            year: (parse_d2(t, 0) * 100 + parse_d2(t, 2)) as u16,
            month: parse_d2(t, 5) as u8,
            day: parse_d2(t, 8) as u8,
            hour: parse_d2(t, 11) as u8,
            minute: parse_d2(t, 14) as u8,
            second: parse_d2(t, 17) as u8,
        };
        if ts.wf() {
            Some(ts)
        } else {
            None
        }
    } else {
        None
    }
}

/// Reading back a rendered instant recovers it exactly.
pub proof fn lemma_parse_rfc(ts: Timestamp, rest: Seq<char>)
    requires
        ts.wf(),
    ensures
        parse_rfc(rfc3339_of(ts) + rest) == Some(ts),
{
    let t = rfc3339_of(ts) + rest;
    let y = ts.year as int;
    let mo = ts.month as int;
    let d = ts.day as int;
    let h = ts.hour as int;
    let mi = ts.minute as int;
    let s = ts.second as int;
    assert(rfc3339_of(ts) =~= seq![
        hex_digit(y / 100 / 10),
        hex_digit(y / 100 % 10),
        hex_digit(y % 100 / 10),
        hex_digit(y % 100 % 10),
        '-',
        hex_digit(mo / 10),
        hex_digit(mo % 10),
        '-',
        hex_digit(d / 10),
        hex_digit(d % 10),
        'T',
        hex_digit(h / 10),
        hex_digit(h % 10),
        ':',
        hex_digit(mi / 10),
        hex_digit(mi % 10),
        ':',
        hex_digit(s / 10),
        hex_digit(s % 10),
        'Z',
    ]);
    lemma_hex_digit_val(y / 100 / 10);
    lemma_hex_digit_val(y / 100 % 10);
    lemma_hex_digit_val(y % 100 / 10);
    lemma_hex_digit_val(y % 100 % 10);
    lemma_hex_digit_val(mo / 10);
    lemma_hex_digit_val(mo % 10);
    lemma_hex_digit_val(d / 10);
    lemma_hex_digit_val(d % 10);
    lemma_hex_digit_val(h / 10);
    lemma_hex_digit_val(h % 10);
    lemma_hex_digit_val(mi / 10);
    lemma_hex_digit_val(mi % 10);
    lemma_hex_digit_val(s / 10);
    lemma_hex_digit_val(s % 10);
    vstd::arithmetic::div_mod::lemma_fundamental_div_mod(y, 100);
    vstd::arithmetic::div_mod::lemma_fundamental_div_mod(y / 100, 10);
    vstd::arithmetic::div_mod::lemma_fundamental_div_mod(y % 100, 10);
    vstd::arithmetic::div_mod::lemma_fundamental_div_mod(mo, 10);
    vstd::arithmetic::div_mod::lemma_fundamental_div_mod(d, 10);
    vstd::arithmetic::div_mod::lemma_fundamental_div_mod(h, 10);
    vstd::arithmetic::div_mod::lemma_fundamental_div_mod(mi, 10);
    vstd::arithmetic::div_mod::lemma_fundamental_div_mod(s, 10);
    assert(parse_d2(t, 0) == y / 100);
    assert(parse_d2(t, 2) == y % 100);
    assert(parse_d2(t, 0) * 100 + parse_d2(t, 2) == y);
    assert(parse_d2(t, 5) == mo);
    assert(parse_d2(t, 8) == d);
    assert(parse_d2(t, 11) == h);
    assert(parse_d2(t, 14) == mi);
    assert(parse_d2(t, 17) == s);
    assert(rfc_shape(t));
}

/// Reads the `[[package_infos]]` tables that make up the whole of `t`.
pub open spec fn parse_tables(t: Seq<char>) -> Option<Seq<PkgModel>>
    decreases t.len(),
{
    if t.len() == 0 {
        Some(Seq::empty())
    } else if t.len() >= 27 && t.take(19) == table_header() && t.skip(19).take(8) == key_name() {
        match parse_string(t.skip(27)) {
            Some(p1) => {
                let o1 = 27 + p1.1;
                if 0 <= o1 && o1 + 12 <= t.len() && t[o1] == '\n' && t.skip(o1 + 1).take(11)
                    == key_version() {
                    match parse_string(t.skip(o1 + 12)) {
                        Some(p2) => {
                            let o2 = o1 + 12 + p2.1;
                            if 0 <= o2 && o2 + 1 <= t.len() && t[o2] == '\n' {
                                match parse_tables(t.skip(o2 + 1)) {
                                    Some(rest) => Some(
                                        seq![PkgModel { name: p1.0, version: p2.0 }] + rest,
                                    ),
                                    None => None,
                                }
                            } else {
                                None
                            }
                        },
                        None => None,
                    }
                } else {
                    None
                }
            },
            None => None,
        }
    } else {
        None
    }
}

/// Where each piece of one rendered table stands inside `table_of(r0)`
/// followed by anything: pure sequence facts, no parsing.
#[verifier::rlimit(100)]
proof fn lemma_table_positions(r0: PkgModel, rest: Seq<char>)
    ensures
        ({
            let t = table_of(r0) + rest;
            let e1 = esc(r0.name);
            let e2 = esc(r0.version);
            let o1 = 28 + e1.len() as int;
            let o2 = o1 + 13 + e2.len() as int;
            &&& t.len() == 42 + e1.len() + e2.len() + rest.len()
            &&& t.take(19) == table_header()
            &&& t.skip(19).take(8) == key_name()
            &&& t.skip(27) == e1 + seq!['"'] + (seq!['\n'] + key_version() + e2 + seq!['"'] + (
            seq!['\n'] + rest))
            &&& t[o1] == '\n'
            &&& t.skip(o1 + 1).take(11) == key_version()
            &&& t.skip(o1 + 12) == e2 + seq!['"'] + (seq!['\n'] + rest)
            &&& t[o2] == '\n'
            &&& t.skip(o2 + 1) == rest
        }),
{
    let t = table_of(r0) + rest;
    let e1 = esc(r0.name);
    let e2 = esc(r0.version);
    let o1 = 28 + e1.len() as int;
    let o2 = o1 + 13 + e2.len() as int;
    assert(t.len() == 42 + e1.len() + e2.len() + rest.len());
    assert(t.take(19) =~= table_header());
    assert(t.skip(19).take(8) =~= key_name());
    assert(t.skip(27) =~= e1 + seq!['"'] + (seq!['\n'] + key_version() + e2 + seq!['"'] + (
    seq!['\n'] + rest)));
    assert(t[o1] == '\n');
    assert(t.skip(o1 + 1).take(11) =~= key_version());
    assert(t.skip(o1 + 12) =~= e2 + seq!['"'] + (seq!['\n'] + rest));
    assert(t[o2] == '\n');
    assert(t.skip(o2 + 1) =~= rest);
}

/// Reading back the rendered tables recovers the record list exactly.
#[verifier::rlimit(100)]
pub proof fn lemma_parse_tables(rs: Seq<PkgModel>)
    ensures
        parse_tables(tables_of(rs)) == Some(rs),
    decreases rs.len(),
{
    if rs.len() == 0 {
        assert(tables_of(rs).len() == 0);
        assert(rs =~= Seq::<PkgModel>::empty());
    } else {
        let r0 = rs[0];
        let rs2 = rs.drop_first();
        lemma_parse_tables(rs2);
        let t = tables_of(rs);
        let e1 = esc(r0.name);
        let e2 = esc(r0.version);
        assert(t == table_of(r0) + tables_of(rs2));
        lemma_table_positions(r0, tables_of(rs2));
        let tail1 = seq!['\n'] + key_version() + e2 + seq!['"'] + (seq!['\n'] + tables_of(rs2));
        let tail2 = seq!['\n'] + tables_of(rs2);
        lemma_parse_esc(r0.name, tail1);
        lemma_parse_esc(r0.version, tail2);
        assert(PkgModel { name: r0.name, version: r0.version } == r0);
        assert(seq![r0] + rs2 =~= rs);
    }
}

/// Reads a whole snapshot document: the name, the instant, and every
/// record, with nothing left over.
pub open spec fn parse_toml(t: Seq<char>) -> Option<SnapModel> {
    if t.len() >= 8 && t.take(8) == key_name() {
        match parse_string(t.skip(8)) {
            Some(p1) => {
                let o1 = 8 + p1.1;
                if 0 <= o1 && o1 + 13 <= t.len() && t[o1] == '\n' && t.skip(o1 + 1).take(12)
                    == key_datetime() {
                    match parse_rfc(t.skip(o1 + 13)) {
                        Some(ts) => {
                            let o2 = o1 + 13 + 20;
                            if o2 + 2 <= t.len() && t[o2] == '"' && t[o2 + 1] == '\n' {
                                match parse_tables(t.skip(o2 + 2)) {
                                    Some(rest) => Some(
                                        SnapModel { name: p1.0, datetime: ts, records: rest },
                                    ),
                                    None => None,
                                }
                            } else {
                                None
                            }
                        },
                        None => None,
                    }
                } else {
                    None
                }
            },
            None => None,
        }
    } else {
        None
    }
}

/// Law: serializing a snapshot and parsing the document back recovers a
/// snapshot with the identical name, the same instant, and the identical
/// record list in order.
#[verifier::rlimit(80)]
pub proof fn lemma_toml_round_trip(m: SnapModel)
    requires
        m.datetime.wf(),
    ensures
        parse_toml(toml_of(m)) == Some(m),
{
    let t = toml_of(m);
    let e1 = esc(m.name);
    let rfc = rfc3339_of(m.datetime);
    let tail1 = seq!['\n'] + key_datetime() + rfc + quote_nl() + tables_of(m.records);
    assert(t =~= key_name() + e1 + seq!['"'] + tail1);
    assert(rfc.len() == 20);
    assert(t.len() >= 8 + e1.len() + 1 + 1 + 12 + 20 + 2);
    assert(t.take(8) =~= key_name());
    assert(t.skip(8) =~= e1 + seq!['"'] + tail1);
    lemma_parse_esc(m.name, tail1);
    let o1: int = 8 + e1.len() as int + 1;
    assert(t[o1] == '\n');
    assert(t.skip(o1 + 1).take(12) =~= key_datetime());
    assert(t.skip(o1 + 13) =~= rfc + (quote_nl() + tables_of(m.records)));
    lemma_parse_rfc(m.datetime, quote_nl() + tables_of(m.records));
    let o2: int = o1 + 13 + 20;
    assert(t[o2] == '"');
    assert(t[o2 + 1] == '\n');
    assert(t.skip(o2 + 2) =~= tables_of(m.records));
    lemma_parse_tables(m.records);
    assert(SnapModel { name: m.name, datetime: m.datetime, records: m.records } == m);
}

} // verus!
