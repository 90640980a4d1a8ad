use vstd::prelude::*;

use vstd::string::StringExecFns;

use crate::snapshot::BiscuitSnapshot;
use crate::snapshot::PkgModel;
use crate::snapshot::SnapModel;
use crate::timestamp::Timestamp;

verus! {

// --- The document, as a value -------------------------------------------
//
// The snapshot file is a TOML document with three top-level items:
//
//     name = "<snapshot name>"
//     datetime = "<RFC 3339 instant, UTC, whole seconds>"
//
// followed by one `[[package_infos]]` table per record:
//
//     [[package_infos]]
//     name = "<package name>"
//     version = "<package version>"
//
// The spec functions below give the emitted character sequence exactly;
// `to_toml_string` is proved to return it verbatim.
/// The character for one value in 0..16, upper case.
pub open spec fn hex_digit(v: int) -> char {
    if v == 0 {
        '0'
    } else if v == 1 {
        '1'
    } else if v == 2 {
        '2'
    } else if v == 3 {
        '3'
    } else if v == 4 {
        '4'
    } else if v == 5 {
        '5'
    } else if v == 6 {
        '6'
    } else if v == 7 {
        '7'
    } else if v == 8 {
        '8'
    } else if v == 9 {
        '9'
    } else if v == 10 {
        'A'
    } else if v == 11 {
        'B'
    } else if v == 12 {
        'C'
    } else if v == 13 {
        'D'
    } else if v == 14 {
        'E'
    } else {
        'F'
    }
}

/// How one character appears inside a TOML basic string: itself, or a
/// two-character escape for quote and backslash, or `\u00XX` for the
/// control characters and delete.
pub open spec fn esc_char(c: char) -> Seq<char> {
    if c == '"' {
        seq!['\\', '"']
    } else if c == '\\' {
        seq!['\\', '\\']
    } else if (c as u32) < 0x20 || (c as u32) == 0x7f {
        seq![
            '\\',
            'u',
            '0',
            '0',
            hex_digit(((c as u32) / 16) as int),
            hex_digit(((c as u32) % 16) as int),
        ]
    } else {
        seq![c]
    }
}

/// A whole string escaped, character by character, in order.
pub open spec fn esc(s: Seq<char>) -> Seq<char>
    decreases s.len(),
{
    if s.len() == 0 {
        Seq::empty()
    } else {
        esc_char(s[0]) + esc(s.drop_first())
    }
}

pub proof fn lemma_esc_push(s: Seq<char>, c: char)
    ensures
        esc(s.push(c)) =~= esc(s) + esc_char(c),
    decreases s.len(),
{
    if s.len() == 0 {
        assert(s.push(c).drop_first() =~= Seq::<char>::empty());
        assert(esc(s.push(c).drop_first()) =~= Seq::<char>::empty());
    } else {
        assert(s.push(c).drop_first() =~= s.drop_first().push(c));
        lemma_esc_push(s.drop_first(), c);
    }
}

/// Two decimal digits, zero padded.
pub open spec fn d2(v: int) -> Seq<char> {
    seq![hex_digit(v / 10), hex_digit(v % 10)]
}

/// The RFC 3339 rendering of a well-formed timestamp:
/// `YYYY-MM-DDThh:mm:ssZ`, twenty characters.
pub open spec fn rfc3339_of(t: Timestamp) -> Seq<char> {
    d2(t.year as int / 100) + d2(t.year as int % 100) + seq!['-'] + d2(t.month as int) + seq![
        '-',
    ] + d2(t.day as int) + seq!['T'] + d2(t.hour as int) + seq![':'] + d2(t.minute as int) + seq![
        ':',
    ] + d2(t.second as int) + seq!['Z']
}

pub open spec fn key_name() -> Seq<char> {
    seq!['n', 'a', 'm', 'e', ' ', '=', ' ', '"']
}

pub open spec fn quote_nl() -> Seq<char> {
    seq!['"', '\n']
}

pub open spec fn key_datetime() -> Seq<char> {
    seq!['d', 'a', 't', 'e', 't', 'i', 'm', 'e', ' ', '=', ' ', '"']
}

pub open spec fn table_header() -> Seq<char> {
    seq!['\n', '[', '[', 'p', 'a', 'c', 'k', 'a', 'g', 'e', '_', 'i', 'n', 'f', 'o', 's', ']', ']', '\n']
}

pub open spec fn key_version() -> Seq<char> {
    seq!['v', 'e', 'r', 's', 'i', 'o', 'n', ' ', '=', ' ', '"']
}

/// One `[[package_infos]]` table.
pub open spec fn table_of(r: PkgModel) -> Seq<char> {
    table_header() + key_name() + esc(r.name) + quote_nl() + key_version() + esc(r.version)
        + quote_nl()
}

/// All tables, in record order.
pub open spec fn tables_of(rs: Seq<PkgModel>) -> Seq<char>
    decreases rs.len(),
{
    if rs.len() == 0 {
        Seq::empty()
    } else {
        table_of(rs[0]) + tables_of(rs.drop_first())
    }
}

pub proof fn lemma_tables_push(rs: Seq<PkgModel>, r: PkgModel)
    ensures
        tables_of(rs.push(r)) =~= tables_of(rs) + table_of(r),
    decreases rs.len(),
{
    if rs.len() == 0 {
        assert(rs.push(r).drop_first() =~= Seq::<PkgModel>::empty());
        assert(tables_of(rs.push(r).drop_first()) =~= Seq::<char>::empty());
    } else {
        assert(rs.push(r).drop_first() =~= rs.drop_first().push(r));
        lemma_tables_push(rs.drop_first(), r);
    }
}

/// The whole document for a snapshot model.
pub open spec fn toml_of(m: SnapModel) -> Seq<char> {
    key_name() + esc(m.name) + quote_nl() + key_datetime() + rfc3339_of(m.datetime) + quote_nl()
        + tables_of(m.records)
}

// --- Executable serialization -------------------------------------------
/// Relies on `String::push`: appends exactly the one character at the end.
#[verifier::external_body]
fn push_char(s: &mut String, c: char)
    ensures
        final(s)@ == old(s)@.push(c),
{
    s.push(c);
}

fn hex_digit_ch(v: u32) -> (c: char)
    requires
        v < 16,
    ensures
        c == hex_digit(v as int),
{
    match v {
        0 => '0',
        1 => '1',
        2 => '2',
        3 => '3',
        4 => '4',
        5 => '5',
        6 => '6',
        7 => '7',
        8 => '8',
        9 => '9',
        10 => 'A',
        11 => 'B',
        12 => 'C',
        13 => 'D',
        14 => 'E',
        _ => 'F',
    }
}

fn append_escaped(out: &mut String, s: &str)
    ensures
        final(out)@ == old(out)@ + esc(s@),
{
    let n = s.unicode_len();
    let mut i: usize = 0;
    proof {
        assert(old(out)@ + esc(s@.take(0)) =~= old(out)@);
    }
    while i < n
        invariant
            n == s@.len(),
            i <= n,
            out@ == old(out)@ + esc(s@.take(i as int)),
        decreases n - i,
    {
        let c = s.get_char(i);
        if c == '"' {
            push_char(out, '\\');
            push_char(out, '"');
        } else if c == '\\' {
            push_char(out, '\\');
            push_char(out, '\\');
        } else {
            let u = c as u32;
            if u < 0x20 || u == 0x7f {
                push_char(out, '\\');
                push_char(out, 'u');
                push_char(out, '0');
                push_char(out, '0');
                push_char(out, hex_digit_ch(u / 16));
                push_char(out, hex_digit_ch(u % 16));
            } else {
                push_char(out, c);
            }
        }
        proof {
            lemma_esc_push(s@.take(i as int), s@[i as int]);
            assert(s@.take(i + 1) =~= s@.take(i as int).push(s@[i as int]));
            assert(out@ =~= old(out)@ + esc(s@.take(i + 1)));
        }
        i = i + 1;
    }
    proof {
        assert(s@.take(n as int) =~= s@);
    }
}

fn append_d2(out: &mut String, v: u32)
    requires
        v < 100,
    ensures
        final(out)@ == old(out)@ + d2(v as int),
{
    push_char(out, hex_digit_ch(v / 10));
    push_char(out, hex_digit_ch(v % 10));
    proof {
        assert(out@ =~= old(out)@ + d2(v as int));
    }
}

fn append_rfc3339(out: &mut String, t: &Timestamp)
    requires
        t.wf(),
    ensures
        final(out)@ == old(out)@ + rfc3339_of(*t),
{
    let y = t.year as u32;
    append_d2(out, y / 100);
    append_d2(out, y % 100);
    push_char(out, '-');
    append_d2(out, t.month as u32);
    push_char(out, '-');
    append_d2(out, t.day as u32);
    push_char(out, 'T');
    append_d2(out, t.hour as u32);
    push_char(out, ':');
    append_d2(out, t.minute as u32);
    push_char(out, ':');
    append_d2(out, t.second as u32);
    push_char(out, 'Z');
    proof {
        assert(out@ =~= old(out)@ + rfc3339_of(*t));
    }
}

impl BiscuitSnapshot {
    /// The snapshot's TOML document, exactly as `toml_of` gives it.
    pub fn to_toml_string(&self) -> (r: String)
        requires
            self.wf(),
        ensures
            r@ == toml_of(self@),
    {
        let mut out = String::new();
        proof {
            reveal_strlit("name = \"");
            reveal_strlit("\"\n");
            reveal_strlit("datetime = \"");
        }
        out.append("name = \"");
        proof {
            assert(out@ =~= key_name());
        }
        append_escaped(&mut out, self.name.as_str());
        out.append("\"\n");
        out.append("datetime = \"");
        proof {
            assert(out@ =~= key_name() + esc(self@.name) + quote_nl() + key_datetime());
        }
        append_rfc3339(&mut out, &self.datetime);
        out.append("\"\n");
        let ghost head = key_name() + esc(self@.name) + quote_nl() + key_datetime() + rfc3339_of(
            self@.datetime,
        ) + quote_nl();
        proof {
            assert(out@ =~= head);
            assert(head + tables_of(self@.records.take(0)) =~= head);
        }
        let mut i: usize = 0;
        let n = self.package_infos.len();
        while i < n
            invariant
                n == self.package_infos@.len(),
                i <= n,
                self@.records.len() == n,
                forall|j: int| 0 <= j < n ==> self@.records[j] == self.package_infos@[j]@,
                out@ == head + tables_of(self@.records.take(i as int)),
            decreases n - i,
        {
            proof {
                reveal_strlit("\n[[package_infos]]\nname = \"");
                reveal_strlit("\"\nversion = \"");
                reveal_strlit("\"\n");
            }
            let ghost before = out@;
            out.append("\n[[package_infos]]\nname = \"");
            proof {
                assert(out@ =~= before + table_header() + key_name());
            }
            append_escaped(&mut out, self.package_infos[i].name.as_str());
            out.append("\"\nversion = \"");
            append_escaped(&mut out, self.package_infos[i].version.as_str());
            out.append("\"\n");
            proof {
                let r = self@.records[i as int];
                assert(out@ =~= before + table_of(r));
                lemma_tables_push(self@.records.take(i as int), r);
                assert(self@.records.take(i + 1) =~= self@.records.take(i as int).push(r));
                assert(out@ =~= head + tables_of(self@.records.take(i + 1)));
            }
            i = i + 1;
        }
        proof {
            assert(self@.records.take(n as int) =~= self@.records);
            assert(out@ =~= toml_of(self@));
        }
        out
    }
}

} // verus!
