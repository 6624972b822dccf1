//! Folding an overlay back into its base, and rolling it back: the steps in their
//! order, and what an interruption at any of them leaves.
use vstd::prelude::*;
use crate::chd_disk::unsupported_record;
use crate::chd_disk::CommitAction;
use crate::chd_disk::GEOMETRY_TAG;
use crate::chd_disk::IDENT_TAG;
use crate::disk_error::invalid_data;
use crate::disk_error::invalid_input;
use crate::disk_error::DiskError;
use crate::disk_error::DiskErrorKind;
use crate::text::owned;
use crate::text::push_hex;

verus! {

/// One step on the files of a disk.
#[derive(Clone, Copy, Debug, PartialEq, Eq, Structural)]
pub enum ChdStep {
    /// Write the marker of a commit.
    WriteMarker,
    /// Make the marker durable.
    SyncMarker,
    /// Write every hunk that the overlay owns into the base, and make the base
    /// durable.
    ApplyHunks,
    /// Remove the overlay.
    RemoveOverlay,
    /// Remove the marker.
    RemoveMarker,
    /// Remove what a cut-short creation of an overlay left.
    RemoveCreating,
    /// Put a newly made overlay in the place of the overlay.
    InstallCreated,
    /// Make a rename or a removal durable.
    SyncDirectory,
    /// Make the rebuilt base durable.
    SyncTemp,
    /// Put the rebuilt base in the place of the base.
    InstallTemp,
    /// Remove the rebuilt base.
    RemoveTemp,
}

/// A step, with whether a failure of it ends the operation.
#[derive(Clone, Copy, Debug, PartialEq, Eq, Structural)]
pub struct PlannedStep {
    pub step: ChdStep,
    pub must_succeed: bool,
    /// It is no failure that the file is not there.
    pub may_be_absent: bool,
}

/// A step whose failure ends the operation.
pub open spec fn must(step: ChdStep) -> PlannedStep {
    PlannedStep { step, must_succeed: true, may_be_absent: false }
}

/// A step whose failure is ignored.
pub open spec fn try_to(step: ChdStep) -> PlannedStep {
    PlannedStep { step, must_succeed: false, may_be_absent: true }
}

/// The steps of a commit of a sparse overlay.
pub open spec fn sparse_commit_steps() -> Seq<PlannedStep> {
    seq![
        must(ChdStep::WriteMarker),
        must(ChdStep::SyncMarker),
        try_to(ChdStep::SyncDirectory),
        must(ChdStep::ApplyHunks),
        must(ChdStep::RemoveOverlay),
        must(ChdStep::RemoveMarker),
        try_to(ChdStep::SyncDirectory),
    ]
}

/// The steps that finish a commit that was cut short.
pub open spec fn resume_steps() -> Seq<PlannedStep> {
    seq![
        must(ChdStep::ApplyHunks),
        must(ChdStep::RemoveOverlay),
        must(ChdStep::RemoveMarker),
        try_to(ChdStep::SyncDirectory),
    ]
}

/// The steps that clear a marker with nothing left to commit.
pub open spec fn clear_steps() -> Seq<PlannedStep> {
    seq![must(ChdStep::RemoveMarker), try_to(ChdStep::SyncDirectory)]
}

/// The steps of a rollback. An overlay that is not there is what it wants to reach.
pub open spec fn discard_steps() -> Seq<PlannedStep> {
    seq![
        try_to(ChdStep::RemoveMarker),
        try_to(ChdStep::RemoveCreating),
        (PlannedStep { step: ChdStep::RemoveOverlay, must_succeed: true, may_be_absent: true }),
        try_to(ChdStep::SyncDirectory),
    ]
}

/// The steps behind a rebuild of the base: the rebuilt base is installed if it is
/// whole, else removed.
pub open spec fn flatten_steps(whole: bool) -> Seq<PlannedStep> {
    if whole {
        seq![
            must(ChdStep::SyncTemp),
            must(ChdStep::InstallTemp),
            try_to(ChdStep::SyncDirectory),
            try_to(ChdStep::RemoveOverlay),
        ]
    } else {
        seq![try_to(ChdStep::RemoveTemp)]
    }
}

/// The steps behind the making of an overlay: one that is whole and durable is
/// installed, what is left of any other is removed.
pub open spec fn create_steps(built: bool) -> Seq<PlannedStep> {
    if built {
        seq![must(ChdStep::InstallCreated), try_to(ChdStep::SyncDirectory)]
    } else {
        seq![try_to(ChdStep::RemoveCreating)]
    }
}

fn required(step: ChdStep) -> (r: PlannedStep)
    ensures
        r == must(step),
{
    PlannedStep { step, must_succeed: true, may_be_absent: false }
}

fn attempted(step: ChdStep) -> (r: PlannedStep)
    ensures
        r == try_to(step),
{
    PlannedStep { step, must_succeed: false, may_be_absent: true }
}

/// The steps of a commit of a sparse overlay.
pub fn commit_sparse_overlay() -> (r: Vec<PlannedStep>)
    ensures
        r@ == sparse_commit_steps(),
{
    let mut out: Vec<PlannedStep> = Vec::new();
    out.push(required(ChdStep::WriteMarker));
    out.push(required(ChdStep::SyncMarker));
    out.push(attempted(ChdStep::SyncDirectory));
    out.push(required(ChdStep::ApplyHunks));
    out.push(required(ChdStep::RemoveOverlay));
    out.push(required(ChdStep::RemoveMarker));
    out.push(attempted(ChdStep::SyncDirectory));
    proof {
        assert(out@ =~= sparse_commit_steps());
    }
    out
}

/// The steps that finish a commit that was cut short.
pub fn finish_commit() -> (r: Vec<PlannedStep>)
    ensures
        r@ == resume_steps(),
{
    let mut out: Vec<PlannedStep> = Vec::new();
    out.push(required(ChdStep::ApplyHunks));
    out.push(required(ChdStep::RemoveOverlay));
    out.push(required(ChdStep::RemoveMarker));
    out.push(attempted(ChdStep::SyncDirectory));
    proof {
        assert(out@ =~= resume_steps());
    }
    out
}

/// The steps that clear a marker with nothing left to commit.
pub fn clear_marker() -> (r: Vec<PlannedStep>)
    ensures
        r@ == clear_steps(),
{
    let mut out: Vec<PlannedStep> = Vec::new();
    out.push(required(ChdStep::RemoveMarker));
    out.push(attempted(ChdStep::SyncDirectory));
    proof {
        assert(out@ =~= clear_steps());
    }
    out
}

/// The steps of a rollback.
pub fn discard_overlay() -> (r: Vec<PlannedStep>)
    ensures
        r@ == discard_steps(),
{
    let mut out: Vec<PlannedStep> = Vec::new();
    out.push(attempted(ChdStep::RemoveMarker));
    out.push(attempted(ChdStep::RemoveCreating));
    out.push(
        PlannedStep { step: ChdStep::RemoveOverlay, must_succeed: true, may_be_absent: true },
    );
    out.push(attempted(ChdStep::SyncDirectory));
    proof {
        assert(out@ =~= discard_steps());
    }
    out
}

/// The steps behind a rebuild of the base. `compressed` says that the compressor
/// reported no error and was not cancelled, `source_whole` that its source failed
/// nowhere and gave every byte.
pub fn flatten_diff(compressed: bool, source_whole: bool) -> (r: Vec<PlannedStep>)
    ensures
        r@ == flatten_steps(compressed && source_whole),
{
    let mut out: Vec<PlannedStep> = Vec::new();
    if compressed && source_whole {
        out.push(required(ChdStep::SyncTemp));
        out.push(required(ChdStep::InstallTemp));
        out.push(attempted(ChdStep::SyncDirectory));
        out.push(attempted(ChdStep::RemoveOverlay));
    } else {
        out.push(attempted(ChdStep::RemoveTemp));
    }
    proof {
        assert(out@ =~= flatten_steps(compressed && source_whole));
    }
    out
}

/// The steps behind the making of an overlay. It is made in a file of its own, so that
/// a failure leaves nothing that a later open would take for an overlay.
pub fn create_overlay(built: bool) -> (r: Vec<PlannedStep>)
    ensures
        r@ == create_steps(built),
{
    let mut out: Vec<PlannedStep> = Vec::new();
    if built {
        out.push(required(ChdStep::InstallCreated));
        out.push(attempted(ChdStep::SyncDirectory));
    } else {
        out.push(attempted(ChdStep::RemoveCreating));
    }
    proof {
        assert(out@ =~= create_steps(built));
    }
    out
}

/// A base can be rebuilt only if it is a hard disk.
pub fn check_flatten(is_hd: bool) -> (r: Result<(), DiskError>)
    ensures
        match r {
            Ok(_) => is_hd,
            Err(e) => !is_hd && e@ == (
                DiskErrorKind::InvalidInput,
                "not a hard-disk CHD"@,
            ),
        },
{
    if is_hd {
        Ok(())
    } else {
        Err(invalid_input(owned("not a hard-disk CHD")))
    }
}

/// Cylinders, heads and sectors of a hard disk, and the bytes in a sector.
#[derive(Clone, Copy, Debug, PartialEq, Eq, Structural)]
pub struct HdGeometry {
    pub cylinders: u32,
    pub heads: u32,
    pub sectors: u32,
    pub sector_bytes: u32,
}

/// What a base is made of.
#[derive(Debug)]
pub struct BaseStructure {
    pub is_hd: bool,
    pub logical_bytes: u64,
    pub hunk_bytes: u32,
    pub unit_bytes: u32,
    /// The codec in each slot, zero where there is none.
    pub codecs: [u32; 4],
    /// What the geometry record says, if it could be read.
    pub geometry: Option<HdGeometry>,
    /// The identification record, if it could be read.
    pub ident: Option<Vec<u8>>,
    /// Every metadata record: its tag, and how many of the same tag stand before it.
    pub records: Vec<(u32, u32)>,
}

/// What a base is rebuilt as.
#[derive(Debug)]
pub struct RebuildOptions {
    pub logical_size: u64,
    pub hunk_size: u32,
    pub unit_size: u32,
    pub codecs: [u32; 4],
    pub geometry: Option<HdGeometry>,
    pub ident: Option<Vec<u8>>,
}

/// A record with this tag is among `records`.
pub open spec fn lists(records: Seq<(u32, u32)>, tag: u32) -> bool {
    exists|i: int| 0 <= i < records.len() && (#[trigger] records[i]).0 == tag
}

/// Why a base cannot be rebuilt, if it cannot: it is no hard disk, it has a record that
/// would be lost, or a record that is to be kept could not be read.
pub open spec fn rebuild_error(path: Seq<char>, base: BaseStructure) -> Option<
    (DiskErrorKind, Seq<char>),
> {
    if !base.is_hd {
        Some((DiskErrorKind::InvalidInput, "not a hard-disk CHD"@))
    } else if crate::chd_disk::first_lost(base.records@, 0) is Some {
        let tag = crate::chd_disk::first_lost(base.records@, 0)->0;
        Some(
            (
                DiskErrorKind::InvalidData,
                path + " has a metadata record (0x"@ + crate::text::hex(tag as nat, 8)
                    + ") that a rebuild would lose"@,
            ),
        )
    } else if lists(base.records@, GEOMETRY_TAG) && base.geometry is None {
        Some((DiskErrorKind::InvalidData, path + " has a geometry record that cannot be read"@))
    } else if lists(base.records@, IDENT_TAG) && base.ident is None {
        Some(
            (
                DiskErrorKind::InvalidData,
                path + " has an identification record that cannot be read"@,
            ),
        )
    } else {
        None
    }
}

fn has_record(records: &Vec<(u32, u32)>, tag: u32) -> (r: bool)
    ensures
        r == lists(records@, tag),
{
    let mut i: usize = 0;
    while i < records.len()
        invariant
            i <= records.len(),
            forall|k: int| 0 <= k < i ==> (#[trigger] records@[k]).0 != tag,
        decreases records.len() - i,
    {
        if records[i].0 == tag {
            return true;
        }
        i = i + 1;
    }
    false
}

/// What a base is rebuilt as: the size, the hunks, the sectors, the codecs, the geometry
/// and the identification are those of the base, so that a compressed base stays
/// compressed and no record is lost. A base of which something would be lost is refused.
pub fn rebuild_options(path: &str, base: BaseStructure) -> (r: Result<RebuildOptions, DiskError>)
    ensures
        match r {
            Ok(o) => {
                &&& rebuild_error(path@, base) is None
                &&& o.logical_size == base.logical_bytes
                &&& o.hunk_size == base.hunk_bytes
                &&& o.unit_size == base.unit_bytes
                &&& o.codecs == base.codecs
                &&& o.geometry == base.geometry
                &&& o.ident == base.ident
            },
            Err(e) => rebuild_error(path@, base) == Some(e@),
        },
{
    match check_flatten(base.is_hd) {
        Ok(_) => {},
        Err(e) => {
            return Err(e);
        },
    }
    if let Some(tag) = unsupported_record(&base.records) {
        let mut m = owned(path);
        m.append(" has a metadata record (0x");
        push_hex(&mut m, tag as u64, 8);
        m.append(") that a rebuild would lose");
        return Err(invalid_data(m));
    }
    if has_record(&base.records, GEOMETRY_TAG) && base.geometry.is_none() {
        let mut m = owned(path);
        m.append(" has a geometry record that cannot be read");
        return Err(invalid_data(m));
    }
    if has_record(&base.records, IDENT_TAG) && base.ident.is_none() {
        let mut m = owned(path);
        m.append(" has an identification record that cannot be read");
        return Err(invalid_data(m));
    }
    Ok(
        RebuildOptions {
            logical_size: base.logical_bytes,
            hunk_size: base.hunk_bytes,
            unit_size: base.unit_bytes,
            codecs: base.codecs,
            geometry: base.geometry,
            ident: base.ident,
        },
    )
}

/// A rebuild keeps every record of the base: whatever record the base lists is the
/// geometry or the identification, and the options carry it.
pub proof fn law_a_rebuild_keeps_every_record(path: Seq<char>, base: BaseStructure, i: int)
    requires
        rebuild_error(path, base) is None,
        0 <= i < base.records@.len(),
    ensures
        crate::chd_disk::carried_over(base.records@[i]),
        base.records@[i].0 == GEOMETRY_TAG ==> base.geometry is Some,
        base.records@[i].0 == IDENT_TAG ==> base.ident is Some,
{
    lemma_none_lost(base.records@, 0, i);
}

proof fn lemma_none_lost(records: Seq<(u32, u32)>, from: int, i: int)
    requires
        crate::chd_disk::first_lost(records, from) is None,
        0 <= from <= i < records.len(),
    ensures
        crate::chd_disk::carried_over(records[i]),
    decreases records.len() - from,
{
    if from < i {
        lemma_none_lost(records, from + 1, i);
    }
}

/// How many units a commit reports: the hunks of a sparse overlay, one rebuild, or
/// none.
pub fn committed_units(action: CommitAction, hunks: usize) -> (r: usize)
    ensures
        r == match action {
            CommitAction::ApplyHunks => hunks,
            CommitAction::Flatten => 1usize,
            CommitAction::Discard => 0usize,
        },
{
    match action {
        CommitAction::ApplyHunks => hunks,
        CommitAction::Flatten => 1,
        CommitAction::Discard => 0,
    }
}

// ---------------------------------------------------------------------------
// What an interruption leaves
// ---------------------------------------------------------------------------

/// The files of a disk: the base, the bytes that an overlay holds, a rebuilt base, and
/// whether there is a marker.
pub struct DiskFiles {
    pub base: Seq<u8>,
    pub overlay: Option<Map<int, u8>>,
    pub temp: Option<Seq<u8>>,
    pub marker: bool,
}

/// A base with the bytes of an overlay over it.
pub open spec fn over(base: Seq<u8>, bytes: Map<int, u8>) -> Seq<u8> {
    Seq::new(
        base.len(),
        |i: int|
            if bytes.contains_key(i) {
                bytes[i]
            } else {
                base[i]
            },
    )
}

impl DiskFiles {
    /// What a guest reads.
    pub open spec fn contents(self) -> Seq<u8> {
        match self.overlay {
            Some(bytes) => over(self.base, bytes),
            None => self.base,
        }
    }

    /// The files after a step.
    pub open spec fn after(self, step: ChdStep) -> DiskFiles {
        match step {
            ChdStep::WriteMarker => DiskFiles { marker: true, ..self },
            ChdStep::RemoveMarker => DiskFiles { marker: false, ..self },
            ChdStep::ApplyHunks => match self.overlay {
                Some(bytes) => DiskFiles { base: over(self.base, bytes), ..self },
                None => self,
            },
            ChdStep::RemoveOverlay => DiskFiles { overlay: None, ..self },
            ChdStep::InstallCreated => DiskFiles { overlay: Some(Map::empty()), ..self },
            ChdStep::InstallTemp => match self.temp {
                Some(t) => DiskFiles { base: t, temp: None, ..self },
                None => self,
            },
            ChdStep::RemoveTemp => DiskFiles { temp: None, ..self },
            _ => self,
        }
    }

    /// The files after the first `n` steps.
    pub open spec fn after_steps(self, steps: Seq<PlannedStep>, n: int) -> DiskFiles
        decreases n,
    {
        if n <= 0 || n > steps.len() {
            self
        } else {
            self.after_steps(steps, n - 1).after(steps[n - 1].step)
        }
    }

    /// The files where an application of the hunks was cut short: only the bytes in
    /// `some` have reached the base.
    pub open spec fn partly_applied(self, some: Set<int>) -> DiskFiles {
        match self.overlay {
            Some(bytes) => DiskFiles { base: over(self.base, bytes.restrict(some)), ..self },
            None => self,
        }
    }

    /// The files after an open dealt with a marker, as `resume_interrupted_commit`
    /// decides for a sparse overlay.
    pub open spec fn resumed(self) -> DiskFiles {
        if !self.marker {
            self
        } else if self.overlay is Some {
            self.after_steps(resume_steps(), resume_steps().len() as int)
        } else {
            self.after_steps(clear_steps(), clear_steps().len() as int)
        }
    }
}

proof fn lemma_over_twice(base: Seq<u8>, bytes: Map<int, u8>, some: Set<int>)
    ensures
        over(over(base, bytes.restrict(some)), bytes) == over(base, bytes),
        over(over(base, bytes), bytes) == over(base, bytes),
{
    assert(over(over(base, bytes.restrict(some)), bytes) =~= over(base, bytes));
    assert(over(over(base, bytes), bytes) =~= over(base, bytes));
}

/// A commit of a sparse overlay that is cut short anywhere, in the middle of the
/// application too, loses nothing: the disk reads the same before the next open has
/// dealt with the marker and after, and after a whole commit the base alone holds it.
pub proof fn law_an_interrupted_commit_loses_nothing(d: DiskFiles, n: int, some: Set<int>)
    requires
        0 <= n <= sparse_commit_steps().len(),
    ensures
        d.after_steps(sparse_commit_steps(), n).contents() == d.contents(),
        d.after_steps(sparse_commit_steps(), n).resumed().contents() == d.contents(),
        d.after_steps(sparse_commit_steps(), 3).partly_applied(some).contents() == d.contents(),
        d.after_steps(sparse_commit_steps(), 3).partly_applied(some).resumed().contents()
            == d.contents(),
        d.after_steps(sparse_commit_steps(), 7).overlay is None,
        d.after_steps(sparse_commit_steps(), 7).base == d.contents(),
        !d.after_steps(sparse_commit_steps(), 7).marker,
{
    let s = sparse_commit_steps();
    let r = resume_steps();
    reveal_with_fuel(DiskFiles::after_steps, 8);
    match d.overlay {
        Some(bytes) => {
            lemma_over_twice(d.base, bytes, some);
        },
        None => {},
    }
    let p = d.after_steps(s, 3).partly_applied(some);
    assert(p.after_steps(r, 4).contents() == d.contents());
    assert(d.after_steps(s, 1).after_steps(r, 4).contents() == d.contents());
    assert(d.after_steps(s, 2).after_steps(r, 4).contents() == d.contents());
    assert(d.after_steps(s, 3).after_steps(r, 4).contents() == d.contents());
    assert(d.after_steps(s, 4).after_steps(r, 4).contents() == d.contents());
}

/// A rebuild that is cut short anywhere, fails or is cancelled loses nothing: at every
/// step the base, with the diff's bytes over it where the diff is still there, is the
/// disk as it was. A failed rebuild leaves both as they were; a whole one leaves only the
/// new base. Between its installation and the removal of the diff both hold the changes;
/// whether that diff can still be linked to the new base is not part of the model.
pub proof fn law_an_interrupted_flatten_loses_nothing(d: DiskFiles, whole: bool, n: int)
    requires
        0 <= n <= flatten_steps(whole).len(),
        whole ==> d.temp == Some(d.contents()),
    ensures
        d.after_steps(flatten_steps(whole), n).contents() == d.contents(),
        !whole ==> d.after_steps(flatten_steps(whole), n).base == d.base && d.after_steps(
            flatten_steps(whole),
            n,
        ).overlay == d.overlay,
        whole ==> d.after_steps(flatten_steps(whole), 4).base == d.contents() && d.after_steps(
            flatten_steps(whole),
            4,
        ).overlay is None,
{
    reveal_with_fuel(DiskFiles::after_steps, 5);
    match d.overlay {
        Some(bytes) => {
            lemma_over_twice(d.base, bytes, Set::empty());
        },
        None => {},
    }
}

/// A rollback leaves the base as it is, and nothing else; cut short, it never leaves a
/// marker that would commit what was to be thrown away.
pub proof fn law_a_rollback_restores_the_base(d: DiskFiles, n: int)
    requires
        0 <= n <= discard_steps().len(),
    ensures
        d.after_steps(discard_steps(), 4).contents() == d.base,
        d.after_steps(discard_steps(), n).base == d.base,
        n >= 1 ==> d.after_steps(discard_steps(), n).resumed().base == d.base,
{
    reveal_with_fuel(DiskFiles::after_steps, 5);
}

/// Making an overlay does not change what a guest reads, and one that is not built
/// leaves no overlay.
pub proof fn law_a_fresh_overlay_changes_nothing(d: DiskFiles, built: bool, n: int)
    requires
        d.overlay is None,
        0 <= n <= create_steps(built).len(),
    ensures
        d.after_steps(create_steps(built), n).contents() == d.contents(),
        !built ==> d.after_steps(create_steps(built), n).overlay is None,
{
    reveal_with_fuel(DiskFiles::after_steps, 3);
    assert(over(d.base, Map::empty()) =~= d.base);
}

// ---------------------------------------------------------------------------
// Orders
// ---------------------------------------------------------------------------

/// Wherever the first of two steps stands, it stands before every one of the second; both are
/// among the steps.
pub open spec fn comes_before(steps: Seq<PlannedStep>, first: ChdStep, second: ChdStep) -> bool {
    &&& exists|i: int| 0 <= i < steps.len() && (#[trigger] steps[i]).step == first
    &&& exists|j: int| 0 <= j < steps.len() && (#[trigger] steps[j]).step == second
    &&& forall|i: int, j: int|
        0 <= i < steps.len() && 0 <= j < steps.len() && (#[trigger] steps[i]).step == first && (
        #[trigger] steps[j]).step == second ==> i < j
}

/// The only steps that may fail are those that make a directory durable, and a file may be
/// missing only there.
pub open spec fn only_directories_may_fail(steps: Seq<PlannedStep>) -> bool {
    forall|i: int|
        0 <= i < steps.len() ==> {
            let p = #[trigger] steps[i];
            &&& p.must_succeed <==> p.step != ChdStep::SyncDirectory
            &&& p.may_be_absent <==> p.step == ChdStep::SyncDirectory
        }
}

/// The order of a commit: the marker is written and durable, in its directory too, before a
/// hunk is applied; the overlay goes only when the hunks are in the base, the marker only when
/// the overlay is gone, and the directory is made durable at the very end. Each of these has to
/// succeed. What finishes a commit that was cut short is its end, from the hunks on, and what
/// clears a marker is the end of that.
pub proof fn law_order_of_a_commit()
    ensures
        ({
            let s = sparse_commit_steps();
            &&& comes_before(s, ChdStep::WriteMarker, ChdStep::SyncMarker)
            &&& comes_before(s, ChdStep::SyncMarker, ChdStep::ApplyHunks)
            &&& comes_before(s, ChdStep::ApplyHunks, ChdStep::RemoveOverlay)
            &&& comes_before(s, ChdStep::RemoveOverlay, ChdStep::RemoveMarker)
            &&& exists|i: int, j: int|
                0 <= i < j < s.len() && (#[trigger] s[i]).step == ChdStep::SyncDirectory && (
                #[trigger] s[j]).step == ChdStep::ApplyHunks
            &&& s.last().step == ChdStep::SyncDirectory
            &&& only_directories_may_fail(s)
            &&& resume_steps() == s.skip(s.len() - 4)
            &&& clear_steps() == s.skip(s.len() - 2)
        }),
{
    let s = sparse_commit_steps();
    assert(s[0].step == ChdStep::WriteMarker);
    assert(s[1].step == ChdStep::SyncMarker);
    assert(s[2].step == ChdStep::SyncDirectory);
    assert(s[3].step == ChdStep::ApplyHunks);
    assert(s[4].step == ChdStep::RemoveOverlay);
    assert(s[5].step == ChdStep::RemoveMarker);
    assert(s[6].step == ChdStep::SyncDirectory);
    assert(resume_steps() =~= s.skip(3));
    assert(clear_steps() =~= s.skip(5));
}

/// The order of a rollback: the marker goes first, so that nothing is committed that was to be
/// thrown away, then what a cut-short creation left, then the overlay, and last the directory
/// is made durable. Only the removal of the overlay has to succeed, and none needs its file to
/// be there.
pub proof fn law_order_of_a_rollback()
    ensures
        ({
            let s = discard_steps();
            &&& s.len() == 4
            &&& comes_before(s, ChdStep::RemoveMarker, ChdStep::RemoveOverlay)
            &&& comes_before(s, ChdStep::RemoveMarker, ChdStep::RemoveCreating)
            &&& comes_before(s, ChdStep::RemoveCreating, ChdStep::RemoveOverlay)
            &&& comes_before(s, ChdStep::RemoveOverlay, ChdStep::SyncDirectory)
            &&& forall|i: int|
                0 <= i < s.len() ==> (#[trigger] s[i]).may_be_absent && (s[i].must_succeed
                    <==> s[i].step == ChdStep::RemoveOverlay)
        }),
{
    let s = discard_steps();
    assert(s[0].step == ChdStep::RemoveMarker);
    assert(s[1].step == ChdStep::RemoveCreating);
    assert(s[2].step == ChdStep::RemoveOverlay);
    assert(s[3].step == ChdStep::SyncDirectory);
}

/// The order of a rebuild: a whole one is made durable before it takes the place of the base,
/// and the diff goes only after that; both of the first two have to succeed, the others may
/// fail. One that is not whole is removed, and nothing else happens.
pub proof fn law_order_of_a_rebuild()
    ensures
        ({
            let s = flatten_steps(true);
            &&& s.len() == 4
            &&& comes_before(s, ChdStep::SyncTemp, ChdStep::InstallTemp)
            &&& comes_before(s, ChdStep::InstallTemp, ChdStep::SyncDirectory)
            &&& comes_before(s, ChdStep::SyncDirectory, ChdStep::RemoveOverlay)
            &&& forall|i: int|
                0 <= i < s.len() ==> ((#[trigger] s[i]).must_succeed <==> s[i].step
                    == ChdStep::SyncTemp || s[i].step == ChdStep::InstallTemp) && (s[i].may_be_absent
                    <==> !s[i].must_succeed)
        }),
        flatten_steps(false).len() == 1,
        flatten_steps(false)[0].step == ChdStep::RemoveTemp,
        !flatten_steps(false)[0].must_succeed,
{
    let s = flatten_steps(true);
    assert(s[0].step == ChdStep::SyncTemp);
    assert(s[1].step == ChdStep::InstallTemp);
    assert(s[2].step == ChdStep::SyncDirectory);
    assert(s[3].step == ChdStep::RemoveOverlay);
}

/// The order of a creation: an overlay that was built is put in its place, which has to
/// succeed, and the directory is then made durable; of one that was not, what is left is
/// removed.
pub proof fn law_order_of_a_creation()
    ensures
        ({
            let s = create_steps(true);
            &&& s.len() == 2
            &&& comes_before(s, ChdStep::InstallCreated, ChdStep::SyncDirectory)
            &&& only_directories_may_fail(s)
        }),
        create_steps(false).len() == 1,
        create_steps(false)[0].step == ChdStep::RemoveCreating,
        !create_steps(false)[0].must_succeed,
{
    let s = create_steps(true);
    assert(s[0].step == ChdStep::InstallCreated);
    assert(s[1].step == ChdStep::SyncDirectory);
}

/// Which bases can be rebuilt: hard disks whose every record is the first geometry record,
/// `GDDD`, or the first identification record, `IDNT`, and could be read. A base that is no hard
/// disk is a bad request, anything else that stands in the way is bad data.
pub proof fn law_which_bases_can_be_rebuilt(path: Seq<char>, base: BaseStructure)
    ensures
        rebuild_error(path, base) is None <==> {
            &&& base.is_hd
            &&& forall|i: int|
                0 <= i < base.records@.len() ==> {
                    let (tag, index) = #[trigger] base.records@[i];
                    &&& index == 0
                    &&& tag == 0x4744_4444 || tag == 0x4944_4E54
                    &&& tag == 0x4744_4444 ==> base.geometry is Some
                    &&& tag == 0x4944_4E54 ==> base.ident is Some
                }
        },
        rebuild_error(path, base) matches Some(e) ==> (e.0 == DiskErrorKind::InvalidInput
            <==> !base.is_hd) && (e.0 == DiskErrorKind::InvalidData <==> base.is_hd),
{
    crate::chd_disk::law_which_records_are_lost(base.records@, 0);
    if rebuild_error(path, base) is None {
        assert forall|i: int| 0 <= i < base.records@.len() implies ({
            let (tag, index) = #[trigger] base.records@[i];
            &&& index == 0
            &&& tag == 0x4744_4444 || tag == 0x4944_4E54
            &&& tag == 0x4744_4444 ==> base.geometry is Some
            &&& tag == 0x4944_4E54 ==> base.ident is Some
        }) by {
            law_a_rebuild_keeps_every_record(path, base, i);
        }
    }
}

} // verus!
