//! Deciding what to do to a profile store, without touching it.
//!
//! [`plan`] reads and decides; [`crate::apply`] says how it is carried out. Nothing here
//! creates, moves, or modifies a file.

use crate::fir::FirCode;
use crate::location::{Location, Place};
use crate::profile::{Header, ProfileHeader};
use crate::views::{lemma_filter_map_holds, lemma_filter_maps_part, lemma_views_push, views};
use crate::warning::{Notice, Warning};
use vstd::prelude::*;

verus! {

/// One of the current upstream profiles, as downloaded.
///
/// `bytes` is the file exactly as published. It is written out verbatim: the document
/// already declares the canonical `id`, and vATIS names files after the id.
#[derive(Debug, Clone)]
pub struct CanonicalProfile {
    pub fir: FirCode,
    pub header: ProfileHeader,
    pub bytes: Vec<u8>,
}

/// What a [`CanonicalProfile`] says.
pub struct Published {
    pub fir: FirCode,
    pub header: Header,
    pub bytes: Seq<u8>,
}

impl Published {
    /// The name vATIS expects of the profile's file.
    pub open spec fn file_name(self) -> Seq<char> {
        self.header.id + ".json"@
    }
}

impl View for CanonicalProfile {
    type V = Published;

    open spec fn view(&self) -> Published {
        Published { fir: self.fir, header: self.header@, bytes: self.bytes@ }
    }
}

impl CanonicalProfile {
    /// The filename vATIS expects for this profile.
    pub fn file_name(&self) -> (r: String)
        ensures
            r@ == self@.file_name(),
    {
        self.header.id.clone().concat(".json")
    }
}

/// What to do about one FIR's profile.
#[derive(Debug, Clone, PartialEq, Eq)]
pub enum ProfileOp {
    /// Move superseded files aside, then write the current profile.
    BackupThenReplace {
        fir: FirCode,
        /// Pre-reissue files found in the store, to be moved to `backup/`.
        superseded: Vec<Location>,
        /// Destination filename within the store, i.e. `<canonical id>.json`.
        file_name: String,
    },
    /// A current profile for this FIR is already in the store, but stale copies are there
    /// too. Move those aside and write nothing: a second live copy of the same FIR is
    /// exactly what the controller does not want.
    BackUp {
        fir: FirCode,
        /// Pre-reissue files found in the store, to be moved to `backup/`.
        superseded: Vec<Location>,
    },
    /// No prior profile for this FIR; just write the current one.
    Write { fir: FirCode, file_name: String },
    /// A post-reissue profile for this FIR is in the store and nothing stale is left
    /// beside it. vATIS keeps its content current from here on.
    Skip { fir: FirCode },
}

/// What a [`ProfileOp`] says.
pub enum Op {
    BackupThenReplace { fir: FirCode, superseded: Seq<Place>, file_name: Seq<char> },
    BackUp { fir: FirCode, superseded: Seq<Place> },
    Write { fir: FirCode, file_name: Seq<char> },
    Skip { fir: FirCode },
}

impl Op {
    /// The region that the operation is for.
    pub open spec fn fir(self) -> FirCode {
        match self {
            Op::BackupThenReplace { fir, .. } => fir,
            Op::BackUp { fir, .. } => fir,
            Op::Write { fir, .. } => fir,
            Op::Skip { fir } => fir,
        }
    }

    /// Whether the operation changes anything on disk.
    pub open spec fn is_actionable(self) -> bool {
        !(self is Skip)
    }

    /// The files that the operation moves aside.
    pub open spec fn superseded(self) -> Seq<Place> {
        match self {
            Op::BackupThenReplace { superseded, .. } => superseded,
            Op::BackUp { superseded, .. } => superseded,
            _ => Seq::empty(),
        }
    }

    /// The name under which the operation writes the region's profile, if it writes one.
    pub open spec fn written(self) -> Option<Seq<char>> {
        match self {
            Op::BackupThenReplace { file_name, .. } => Some(file_name),
            Op::Write { file_name, .. } => Some(file_name),
            _ => None,
        }
    }
}

impl View for ProfileOp {
    type V = Op;

    open spec fn view(&self) -> Op {
        match self {
            ProfileOp::BackupThenReplace { fir, superseded, file_name } => Op::BackupThenReplace {
                fir: *fir,
                superseded: views(superseded@),
                file_name: file_name@,
            },
            ProfileOp::BackUp { fir, superseded } => Op::BackUp {
                fir: *fir,
                superseded: views(superseded@),
            },
            ProfileOp::Write { fir, file_name } => Op::Write { fir: *fir, file_name: file_name@ },
            ProfileOp::Skip { fir } => Op::Skip { fir: *fir },
        }
    }
}

impl ProfileOp {
    /// The region that the operation is for.
    pub fn fir(&self) -> (r: FirCode)
        ensures
            r == self@.fir(),
    {
        match self {
            ProfileOp::BackupThenReplace { fir, .. } => *fir,
            ProfileOp::BackUp { fir, .. } => *fir,
            ProfileOp::Write { fir, .. } => *fir,
            ProfileOp::Skip { fir } => *fir,
        }
    }

    /// Whether this op changes anything on disk. Drives modal suppression: when every op
    /// is inert, the user is not interrupted.
    pub fn is_actionable(&self) -> (r: bool)
        ensures
            r == self@.is_actionable(),
    {
        match self {
            ProfileOp::Skip { .. } => false,
            _ => true,
        }
    }
}

/// What is to be done, and what was passed over.
#[derive(Debug, Clone)]
pub struct VatisPlan {
    pub ops: Vec<ProfileOp>,
    pub warnings: Vec<Warning>,
}

/// What a [`VatisPlan`] says.
#[verifier::ext_equal]
pub struct Decision {
    pub ops: Seq<Op>,
    pub warnings: Seq<Notice>,
}

impl Decision {
    /// Whether anything would change.
    pub open spec fn has_work(self) -> bool {
        exists|i: int| 0 <= i < self.ops.len() && #[trigger] self.ops[i].is_actionable()
    }
}

impl View for VatisPlan {
    type V = Decision;

    open spec fn view(&self) -> Decision {
        Decision { ops: views(self.ops@), warnings: views(self.warnings@) }
    }
}

impl Default for VatisPlan {
    fn default() -> (r: VatisPlan)
        ensures
            r@ == (Decision { ops: Seq::empty(), warnings: Seq::empty() }),
    {
        let r = VatisPlan { ops: Vec::new(), warnings: Vec::new() };
        proof {
            assert(r@ =~= (Decision { ops: Seq::empty(), warnings: Seq::empty() }));
        }
        r
    }
}

impl VatisPlan {
    /// Whether the plan would change anything.
    pub fn has_work(&self) -> (r: bool)
        ensures
            r == self@.has_work(),
    {
        let mut i: usize = 0;
        while i < self.ops.len()
            invariant
                i <= self.ops.len(),
                forall|j: int| 0 <= j < i ==> !(#[trigger] self@.ops[j]).is_actionable(),
            decreases self.ops.len() - i,
        {
            if self.ops[i].is_actionable() {
                proof {
                    assert(self@.ops[i as int].is_actionable());
                }
                return true;
            }
            i = i + 1;
        }
        false
    }
}

/// One profile file already in the store.
#[derive(Debug, Clone)]
pub struct StoredProfile {
    pub path: Location,
    pub header: ProfileHeader,
}

/// What a [`StoredProfile`] says.
pub struct Stored {
    pub path: Place,
    pub header: Header,
}

impl View for StoredProfile {
    type V = Stored;

    open spec fn view(&self) -> Stored {
        Stored { path: self.path@, header: self.header@ }
    }
}

/// The place of the first published profile for `fir`, if there is one.
pub open spec fn published_at(canonical: Seq<Published>, fir: FirCode) -> Option<int> {
    canonical.map_values(|p: Published| p.fir).index_of_first(fir)
}

/// Where the superseded profiles of `fir` lie, in the order of the store.
pub open spec fn superseded_paths(stored: Seq<Stored>, fir: FirCode) -> Seq<Place> {
    stored.filter_map(
        |s: Stored|
            if s.header.is_superseded(fir) {
                Some(s.path)
            } else {
                None
            },
    )
}

/// Whether the store holds a current profile of `fir`.
pub open spec fn has_current(stored: Seq<Stored>, fir: FirCode) -> bool {
    exists|i: int| 0 <= i < stored.len() && #[trigger] stored[i].header.is_current(fir)
}

/// What a region needs when its current profile is filed under `file_name`: whether
/// there is anything to move aside, and whether a profile is missing, decide
/// independently.
pub open spec fn op_for(stored: Seq<Stored>, fir: FirCode, file_name: Seq<char>) -> Op {
    let superseded = superseded_paths(stored, fir);
    if has_current(stored, fir) {
        if superseded.len() == 0 {
            Op::Skip { fir }
        } else {
            Op::BackUp { fir, superseded }
        }
    } else {
        if superseded.len() == 0 {
            Op::Write { fir, file_name }
        } else {
            Op::BackupThenReplace { fir, superseded, file_name }
        }
    }
}

/// What is done about one region: nothing when no profile is published for it.
pub open spec fn planned_op(
    stored: Seq<Stored>,
    canonical: Seq<Published>,
    fir: FirCode,
) -> Option<Op> {
    match published_at(canonical, fir) {
        Some(at) => Some(op_for(stored, fir, canonical[at].file_name())),
        None => None,
    }
}

/// What is said about one region: that no profile is published for it, if that is so.
pub open spec fn planned_warning(canonical: Seq<Published>, fir: FirCode) -> Option<Notice> {
    match published_at(canonical, fir) {
        Some(at) => None,
        None => Some(Notice::Unpublished { fir }),
    }
}

/// The whole plan: region by region, in the order in which they are asked for.
pub open spec fn planned(
    stored: Seq<Stored>,
    canonical: Seq<Published>,
    firs: Seq<FirCode>,
) -> Decision {
    Decision {
        ops: firs.filter_map(|fir: FirCode| planned_op(stored, canonical, fir)),
        warnings: firs.filter_map(|fir: FirCode| planned_warning(canonical, fir)),
    }
}

/// The place of the first published profile for `fir`, if there is one.
pub(crate) fn find_published(canonical: &[CanonicalProfile], fir: FirCode) -> (r: Option<usize>)
    ensures
        match r {
            Some(at) => published_at(views(canonical@), fir) == Some(at as int) && at
                < canonical@.len() && canonical@[at as int].fir == fir,
            None => published_at(views(canonical@), fir) is None,
        },
{
    let ghost all = views(canonical@).map_values(|p: Published| p.fir);
    proof {
        all.index_of_first_ensures(fir);
    }
    let mut i: usize = 0;
    while i < canonical.len()
        invariant
            i <= canonical@.len(),
            all == views(canonical@).map_values(|p: Published| p.fir),
            forall|j: int| 0 <= j < i ==> all[j] != fir,
        decreases canonical@.len() - i,
    {
        if canonical[i].fir == fir {
            proof {
                assert(all[i as int] == fir);
                all.index_of_first_ensures(fir);
            }
            return Some(i);
        }
        i = i + 1;
    }
    proof {
        all.index_of_first_ensures(fir);
    }
    None
}

/// Where the superseded profiles of `fir` lie, in the order of the store. There can be
/// more than one: a controller may have imported the profile repeatedly, and vATIS gives
/// each copy a fresh id.
fn collect_superseded(stored: &[StoredProfile], fir: FirCode) -> (r: Vec<Location>)
    ensures
        views(r@) == superseded_paths(views(stored@), fir),
{
    let ghost all = views(stored@);
    let ghost pick = |s: Stored|
        if s.header.is_superseded(fir) {
            Some(s.path)
        } else {
            None
        };
    let mut r: Vec<Location> = Vec::new();
    let mut i: usize = 0;
    proof {
        assert(views(r@) =~= all.take(0).filter_map(pick));
    }
    while i < stored.len()
        invariant
            i <= stored@.len(),
            all == views(stored@),
            pick == (|s: Stored|
                if s.header.is_superseded(fir) {
                    Some(s.path)
                } else {
                    None
                }),
            views(r@) == all.take(i as int).filter_map(pick),
        decreases stored@.len() - i,
    {
        proof {
            all.lemma_filter_map_take_succ(pick, i as int);
        }
        if stored[i].header.is_superseded(fir) {
            let path = stored[i].path.clone();
            proof {
                lemma_views_push(r@, path);
            }
            r.push(path);
        }
        i = i + 1;
    }
    proof {
        assert(all.take(all.len() as int) == all);
    }
    r
}

/// Whether a post-reissue profile for the region is already in the store.
///
/// Decided on the profile's own serial, never on its file name: vATIS mints a fresh id
/// for anything imported through its UI, so a fully current profile is usually filed
/// under an id that is not the published one.
fn find_current(stored: &[StoredProfile], fir: FirCode) -> (r: bool)
    ensures
        r == has_current(views(stored@), fir),
{
    let mut i: usize = 0;
    while i < stored.len()
        invariant
            i <= stored@.len(),
            forall|j: int|
                0 <= j < i ==> !(#[trigger] views(stored@)[j]).header.is_current(fir),
        decreases stored@.len() - i,
    {
        if stored[i].header.is_current(fir) {
            proof {
                assert(views(stored@)[i as int].header.is_current(fir));
            }
            return true;
        }
        i = i + 1;
    }
    false
}

/// Decide what each in-scope FIR needs.
///
/// Pure: takes the store's contents and the downloaded profiles, and touches nothing.
/// `firs` is the run's scope: the FIRs whose packages were installed.
pub fn plan(stored: &[StoredProfile], canonical: &[CanonicalProfile], firs: &[FirCode]) -> (r:
    VatisPlan)
    ensures
        r@ == planned(views(stored@), views(canonical@), firs@),
{
    let ghost the_store = views(stored@);
    let ghost the_release = views(canonical@);
    let ghost op_of = |fir: FirCode| planned_op(the_store, the_release, fir);
    let ghost warning_of = |fir: FirCode| planned_warning(the_release, fir);
    let mut out = VatisPlan::default();
    let mut i: usize = 0;
    proof {
        assert(out@.ops =~= firs@.take(0).filter_map(op_of));
        assert(out@.warnings =~= firs@.take(0).filter_map(warning_of));
    }
    while i < firs.len()
        invariant
            i <= firs@.len(),
            the_store == views(stored@),
            the_release == views(canonical@),
            op_of == (|fir: FirCode| planned_op(the_store, the_release, fir)),
            warning_of == (|fir: FirCode| planned_warning(the_release, fir)),
            out@.ops == firs@.take(i as int).filter_map(op_of),
            out@.warnings == firs@.take(i as int).filter_map(warning_of),
        decreases firs@.len() - i,
    {
        let fir = firs[i];
        proof {
            firs@.lemma_filter_map_take_succ(op_of, i as int);
            firs@.lemma_filter_map_take_succ(warning_of, i as int);
        }
        match find_published(canonical, fir) {
            None => {
                let warning = Warning::Unpublished { fir };
                proof {
                    lemma_views_push(out.warnings@, warning);
                }
                out.warnings.push(warning);
            },
            Some(at) => {
                let file_name = canonical[at].file_name();
                let superseded = collect_superseded(stored, fir);
                let current_present = find_current(stored, fir);
                let op = match (superseded.is_empty(), current_present) {
                    (false, false) => ProfileOp::BackupThenReplace { fir, superseded, file_name },
                    (false, true) => ProfileOp::BackUp { fir, superseded },
                    (true, false) => ProfileOp::Write { fir, file_name },
                    (true, true) => ProfileOp::Skip { fir },
                };
                proof {
                    assert(op@ == op_for(the_store, fir, the_release[at as int].file_name()));
                    lemma_views_push(out.ops@, op);
                }
                out.ops.push(op);
            },
        }
        i = i + 1;
    }
    proof {
        assert(firs@.take(firs@.len() as int) == firs@);
    }
    out
}

/// Every region asked for either gets an operation or is warned about, once.
pub proof fn law_every_region_is_accounted_for(
    stored: Seq<Stored>,
    canonical: Seq<Published>,
    firs: Seq<FirCode>,
)
    ensures
        planned(stored, canonical, firs).ops.len() + planned(stored, canonical, firs).warnings.len()
            == firs.len(),
{
    lemma_filter_maps_part(
        firs,
        |fir: FirCode| planned_op(stored, canonical, fir),
        |fir: FirCode| planned_warning(canonical, fir),
    );
}

/// Only the regions asked for, and published, are acted upon.
pub proof fn law_only_regions_in_scope_are_planned(
    stored: Seq<Stored>,
    canonical: Seq<Published>,
    firs: Seq<FirCode>,
    i: int,
)
    requires
        0 <= i < planned(stored, canonical, firs).ops.len(),
    ensures
        firs.contains(planned(stored, canonical, firs).ops[i].fir()),
        published_at(canonical, planned(stored, canonical, firs).ops[i].fir()) is Some,
{
    let op_of = |fir: FirCode| planned_op(stored, canonical, fir);
    let ops = planned(stored, canonical, firs).ops;
    assert(ops.contains(ops[i]));
    firs.lemma_filter_map_contains(op_of, ops[i]);
}

/// Whether a region, if it is published, needs anything done: a superseded profile is in
/// the store, or no current one is.
pub open spec fn needs_work(stored: Seq<Stored>, canonical: Seq<Published>, fir: FirCode) -> bool {
    &&& published_at(canonical, fir) is Some
    &&& superseded_paths(stored, fir).len() > 0 || !has_current(stored, fir)
}

/// A plan has work exactly when some region asked for needs it.
pub proof fn law_a_plan_has_work_when_a_region_needs_it(
    stored: Seq<Stored>,
    canonical: Seq<Published>,
    firs: Seq<FirCode>,
)
    ensures
        planned(stored, canonical, firs).has_work() <==> exists|i: int|
            0 <= i < firs.len() && needs_work(stored, canonical, #[trigger] firs[i]),
{
    let op_of = |fir: FirCode| planned_op(stored, canonical, fir);
    let ops = planned(stored, canonical, firs).ops;
    if planned(stored, canonical, firs).has_work() {
        let k = choose|k: int| 0 <= k < ops.len() && #[trigger] ops[k].is_actionable();
        assert(ops.contains(ops[k]));
        firs.lemma_filter_map_contains(op_of, ops[k]);
        let fir = choose|fir: FirCode| #[trigger]
            firs.contains(fir) && op_of(fir) == Some(ops[k]);
        let i = choose|i: int| 0 <= i < firs.len() && firs[i] == fir;
        assert(needs_work(stored, canonical, firs[i]));
    }
    assert forall|i: int|
        0 <= i < firs.len() && needs_work(stored, canonical, #[trigger] firs[i]) implies planned(
        stored,
        canonical,
        firs,
    ).has_work() by {
        lemma_filter_map_holds(firs, op_of, i);
        let op = op_of(firs[i])->0;
        let k = choose|k: int| 0 <= k < ops.len() && ops[k] == op;
        assert(ops[k].is_actionable());
    }
}

/// A profile is written for a region only when the store holds no current one: there is
/// never a second live copy.
pub proof fn law_no_second_copy_is_written(
    stored: Seq<Stored>,
    canonical: Seq<Published>,
    firs: Seq<FirCode>,
    i: int,
)
    requires
        0 <= i < planned(stored, canonical, firs).ops.len(),
    ensures
        planned(stored, canonical, firs).ops[i].written() is Some <==> !has_current(
            stored,
            planned(stored, canonical, firs).ops[i].fir(),
        ),
{
    let op_of = |fir: FirCode| planned_op(stored, canonical, fir);
    let ops = planned(stored, canonical, firs).ops;
    assert(ops.contains(ops[i]));
    firs.lemma_filter_map_contains(op_of, ops[i]);
}

/// What is moved aside for a region is every superseded profile of it in the store, and
/// nothing else.
pub proof fn law_all_superseded_profiles_are_moved(
    stored: Seq<Stored>,
    canonical: Seq<Published>,
    firs: Seq<FirCode>,
    i: int,
    place: Place,
)
    requires
        0 <= i < planned(stored, canonical, firs).ops.len(),
    ensures
        planned(stored, canonical, firs).ops[i].superseded().contains(place) <==> exists|j: int|
            {
                &&& 0 <= j < stored.len()
                &&& (#[trigger] stored[j]).path == place
                &&& stored[j].header.is_superseded(planned(stored, canonical, firs).ops[i].fir())
            },
{
    let op_of = |fir: FirCode| planned_op(stored, canonical, fir);
    let ops = planned(stored, canonical, firs).ops;
    assert(ops.contains(ops[i]));
    firs.lemma_filter_map_contains(op_of, ops[i]);
    let fir = ops[i].fir();
    let paths = superseded_paths(stored, fir);
    let pick = |s: Stored|
        if s.header.is_superseded(fir) {
            Some(s.path)
        } else {
            None
        };
    assert(ops[i].superseded() =~= paths);
    if paths.contains(place) {
        stored.lemma_filter_map_contains(pick, place);
        let s = choose|s: Stored| #[trigger] stored.contains(s) && pick(s) == Some(place);
        let j = choose|j: int| 0 <= j < stored.len() && stored[j] == s;
        assert(stored[j].path == place);
    }
    assert forall|j: int|
        0 <= j < stored.len() && (#[trigger] stored[j]).path == place
            && stored[j].header.is_superseded(fir) implies paths.contains(place) by {
        lemma_filter_map_holds(stored, pick, j);
    }
}

/// What the files of the store are called does not decide what is done: the plan over the
/// same profiles in other files is the same plan, with their files moved.
pub proof fn law_file_names_do_not_decide(
    one: Seq<Stored>,
    two: Seq<Stored>,
    fir: FirCode,
    file_name: Seq<char>,
)
    requires
        one.len() == two.len(),
        forall|i: int|
            0 <= i < one.len() ==> (#[trigger] one[i]).header == two[i].header,
    ensures
        op_for(one, fir, file_name) is Skip <==> op_for(two, fir, file_name) is Skip,
        op_for(one, fir, file_name) is BackUp <==> op_for(two, fir, file_name) is BackUp,
        op_for(one, fir, file_name) is Write <==> op_for(two, fir, file_name) is Write,
        op_for(one, fir, file_name).written() == op_for(two, fir, file_name).written(),
        op_for(one, fir, file_name).superseded().len() == op_for(
            two,
            fir,
            file_name,
        ).superseded().len(),
{
    lemma_superseded_count(one, two, fir);
    if has_current(one, fir) {
        let i = choose|i: int| 0 <= i < one.len() && #[trigger] one[i].header.is_current(fir);
        assert(two[i].header.is_current(fir));
    }
    if has_current(two, fir) {
        let i = choose|i: int| 0 <= i < two.len() && #[trigger] two[i].header.is_current(fir);
        assert(one[i].header.is_current(fir));
    }
}

/// As many profiles are superseded, whatever their files are called.
proof fn lemma_superseded_count(one: Seq<Stored>, two: Seq<Stored>, fir: FirCode)
    requires
        one.len() == two.len(),
        forall|i: int|
            0 <= i < one.len() ==> (#[trigger] one[i]).header == two[i].header,
    ensures
        superseded_paths(one, fir).len() == superseded_paths(two, fir).len(),
    decreases one.len(),
{
    if one.len() > 0 {
        let n = one.len() - 1;
        assert(one[n].header == two[n].header);
        assert forall|i: int| 0 <= i < n implies (#[trigger] one.drop_last()[i]).header
            == two.drop_last()[i].header by {
            assert(one[i].header == two[i].header);
        }
        lemma_superseded_count(one.drop_last(), two.drop_last(), fir);
    }
}

} // verus!
