use vstd::prelude::*;

use vstd::string::StringExecFns;

use crate::clock;
use crate::timestamp::Timestamp;

verus! {

/// One installed package: a name and a version, both opaque text.
pub struct PackageInfo {
    pub name: String,
    pub version: String,
}

/// The mathematical value of a `PackageInfo`: the two strings as
/// character sequences.
#[verifier::ext_equal]
pub ghost struct PkgModel {
    pub name: Seq<char>,
    pub version: Seq<char>,
}

impl View for PackageInfo {
    type V = PkgModel;

    open spec fn view(&self) -> PkgModel {
        PkgModel { name: self.name@, version: self.version@ }
    }
}

/// A named, timestamped inventory of installed packages.
///
/// Built once per run: created empty, grown by appends in enumeration
/// order, then serialized.
pub struct BiscuitSnapshot {
    pub name: String,
    pub datetime: Timestamp,
    pub package_infos: Vec<PackageInfo>,
}

/// The mathematical value of a `BiscuitSnapshot`.
#[verifier::ext_equal]
pub ghost struct SnapModel {
    pub name: Seq<char>,
    pub datetime: Timestamp,
    pub records: Seq<PkgModel>,
}

impl View for BiscuitSnapshot {
    type V = SnapModel;

    open spec fn view(&self) -> SnapModel {
        SnapModel {
            name: self.name@,
            datetime: self.datetime,
            records: Seq::new(self.package_infos@.len(), |i: int| self.package_infos@[i]@),
        }
    }
}

/// What one append does to the model: the record goes on the end,
/// name and timestamp stay.
pub open spec fn add_record_spec(m: SnapModel, r: PkgModel) -> SnapModel {
    SnapModel { records: m.records.push(r), ..m }
}

/// The model after a whole sequence of appends, first to last.
pub open spec fn add_records_spec(m: SnapModel, rs: Seq<PkgModel>) -> SnapModel
    decreases rs.len(),
{
    if rs.len() == 0 {
        m
    } else {
        add_records_spec(add_record_spec(m, rs[0]), rs.drop_first())
    }
}

/// Law: however many records are appended, the resulting record list is
/// the old list followed by exactly those records, in call order, with
/// each name and version kept verbatim; the snapshot's own name and
/// timestamp never change. Starting from an empty list, the list is
/// therefore exactly the sequence of appended records.
pub proof fn lemma_records_in_call_order(m: SnapModel, rs: Seq<PkgModel>)
    ensures
        add_records_spec(m, rs).name == m.name,
        add_records_spec(m, rs).datetime == m.datetime,
        add_records_spec(m, rs).records =~= m.records + rs,
    decreases rs.len(),
{
    if rs.len() == 0 {
        assert(add_records_spec(m, rs).records =~= m.records + rs);
    } else {
        let m1 = add_record_spec(m, rs[0]);
        lemma_records_in_call_order(m1, rs.drop_first());
        assert(m.records.push(rs[0]) + rs.drop_first() =~= m.records + rs);
    }
}

/// The output path a snapshot falls back to when the caller names none:
/// the snapshot's own name with a `.toml` extension.
pub fn default_output_filename(name: &str) -> (r: String)
    ensures
        r@ == name@ + seq!['.', 't', 'o', 'm', 'l'],
{
    let mut r = name.to_owned();
    r.append(".toml");
    proof {
        reveal_strlit(".toml");
        assert(r@ =~= name@ + seq!['.', 't', 'o', 'm', 'l']);
    }
    r
}

impl BiscuitSnapshot {
    /// The snapshot's timestamp is a well-formed calendar time.
    pub open spec fn wf(self) -> bool {
        self.datetime.wf()
    }

    /// A fresh snapshot: exactly the given name, an empty record list,
    /// and the current UTC time (whatever the clock reports, clamped to
    /// a well-formed calendar time).
    pub fn create_with_name(name: &str) -> (s: BiscuitSnapshot)
        ensures
            s@.name == name@,
            s@.records == Seq::<PkgModel>::empty(),
            s.wf(),
    {
        let s = BiscuitSnapshot {
            name: name.to_owned(),
            datetime: clock::now_utc(),
            package_infos: Vec::new(),
        };
        proof {
            assert(s@.records =~= Seq::<PkgModel>::empty());
        }
        s
    }

    /// A fresh snapshot at a caller-chosen instant: the whole model is
    /// pinned down.
    pub fn create_at(name: &str, at: Timestamp) -> (s: BiscuitSnapshot)
        requires
            at.wf(),
        ensures
            s@ == (SnapModel { name: name@, datetime: at, records: Seq::<PkgModel>::empty() }),
            s.wf(),
    {
        let s = BiscuitSnapshot { name: name.to_owned(), datetime: at, package_infos: Vec::new() };
        proof {
            assert(s@ =~= SnapModel {
                name: name@,
                datetime: at,
                records: Seq::<PkgModel>::empty(),
            });
        }
        s
    }

    /// Appends one record; nothing else moves.
    pub fn add_package_info(&mut self, name: &str, version: &str)
        ensures
            final(self)@ == add_record_spec(
                old(self)@,
                PkgModel { name: name@, version: version@ },
            ),
            final(self).wf() == old(self).wf(),
    {
        self.package_infos.push(
            PackageInfo { name: name.to_owned(), version: version.to_owned() },
        );
        proof {
            assert(self@ =~= add_record_spec(
                old(self)@,
                PkgModel { name: name@, version: version@ },
            ));
        }
    }
}

} // verus!
