//! What the user is shown of a machine.

use crate::fir::FirCode;
use crate::location::{Location, Place};
use crate::paths::{
    backup_dir_for, backup_place, place_of, profiles_dir_for, profiles_place, Platform,
};
use crate::plan::{
    law_a_plan_has_work_when_a_region_needs_it, needs_work, plan, planned, CanonicalProfile,
    Decision, Op, ProfileOp, Published, Stored, StoredProfile,
};
use crate::views::views;
use crate::warning::{Notice, Warning};
use vstd::prelude::*;

verus! {

/// What was found for one FIR.
#[derive(Debug, Clone, Copy, PartialEq, Eq, Structural)]
pub enum ProfileState {
    /// No profile for this FIR in the store.
    Missing,
    /// A profile from before the ID reissue, which vATIS cannot migrate.
    Superseded,
    /// On the canonical id; vATIS keeps its content current from here.
    Current,
}

impl Op {
    /// What the operation tells of the region's profile.
    pub open spec fn state(self) -> ProfileState {
        match self {
            Op::Write { .. } => ProfileState::Missing,
            Op::BackupThenReplace { .. } => ProfileState::Superseded,
            Op::BackUp { .. } => ProfileState::Superseded,
            Op::Skip { .. } => ProfileState::Current,
        }
    }

    /// What is shown for the operation's region.
    pub open spec fn entry(self) -> ProfileEntry {
        ProfileEntry { fir: self.fir(), state: self.state() }
    }
}

/// What is shown for one FIR.
#[derive(Debug, Clone, Copy, PartialEq, Eq, Structural)]
pub struct ProfileEntry {
    pub fir: FirCode,
    pub state: ProfileState,
}

/// What is shown of a machine.
#[derive(Debug, Clone, PartialEq, Eq)]
pub struct VatisStatus {
    pub client_installed: bool,
    pub client_path: Option<Location>,
    /// `"windows"` or `"macos"`, so that guidance can be worded correctly.
    pub platform: &'static str,
    pub profiles_dir: Option<Location>,
    pub backup_dir: Option<Location>,
    pub entries: Vec<ProfileEntry>,
    /// Whether the user has something to act on. Drives modal suppression.
    pub needs_attention: bool,
    pub warnings: Vec<Warning>,
}

/// What a [`VatisStatus`] says.
#[verifier::ext_equal]
pub struct Status {
    pub client_installed: bool,
    pub client_path: Option<Place>,
    pub platform: Seq<char>,
    pub profiles_dir: Option<Place>,
    pub backup_dir: Option<Place>,
    pub entries: Seq<ProfileEntry>,
    pub needs_attention: bool,
    pub warnings: Seq<Notice>,
}

impl View for VatisStatus {
    type V = Status;

    open spec fn view(&self) -> Status {
        Status {
            client_installed: self.client_installed,
            client_path: place_of(self.client_path),
            platform: self.platform@,
            profiles_dir: place_of(self.profiles_dir),
            backup_dir: place_of(self.backup_dir),
            entries: self.entries@,
            needs_attention: self.needs_attention,
            warnings: views(self.warnings@),
        }
    }
}

/// What a platform is called.
pub open spec fn name_of(platform: Platform) -> Seq<char> {
    match platform {
        Platform::Windows => "windows"@,
        Platform::MacOs => "macos"@,
    }
}

impl Status {
    /// What is shown before the profiles were looked at: only whether a client is there,
    /// which the user has to see to when it is not.
    pub open spec fn initial(platform: Platform, client_path: Option<Place>) -> Status {
        Status {
            client_installed: client_path is Some,
            client_path,
            platform: name_of(platform),
            profiles_dir: None,
            backup_dir: None,
            entries: Seq::empty(),
            needs_attention: client_path is None,
            warnings: Seq::empty(),
        }
    }

    /// What is shown when a client is there and the profiles were looked at: one entry for
    /// each operation of the plan, the warnings about the store and then those of the plan;
    /// the user has something to act on when the plan has work.
    pub open spec fn complete(
        platform: Platform,
        home: Place,
        client_path: Place,
        store_warnings: Seq<Notice>,
        plan: Decision,
    ) -> Status {
        Status {
            client_installed: true,
            client_path: Some(client_path),
            platform: name_of(platform),
            profiles_dir: Some(profiles_place(platform, home)),
            backup_dir: Some(backup_place(platform, home)),
            entries: plan.ops.map_values(|op: Op| op.entry()),
            needs_attention: plan.has_work(),
            warnings: store_warnings + plan.warnings,
        }
    }
}

/// What `platform` is called.
pub fn platform_name_for(platform: Platform) -> (r: &'static str)
    ensures
        r@ == name_of(platform),
{
    match platform {
        Platform::Windows => "windows",
        Platform::MacOs => "macos",
    }
}

/// What the platform of this host is called.
pub fn platform_name() -> (r: &'static str)
    ensures
        exists|platform: Platform| platform.is_host() && r@ == #[trigger] name_of(platform),
{
    platform_name_for(Platform::host())
}

/// What is shown before the profiles are looked at.
///
/// It is all there is to say when no client is installed: there is nothing to say about
/// profiles yet, and no reason to spend a download finding that out.
pub fn initial_status(platform: Platform, client_path: Option<Location>) -> (r: VatisStatus)
    ensures
        r@ == Status::initial(platform, place_of(client_path)),
{
    let client_installed = client_path.is_some();
    let r = VatisStatus {
        client_installed,
        client_path,
        platform: platform_name_for(platform),
        profiles_dir: None,
        backup_dir: None,
        entries: Vec::new(),
        needs_attention: !client_installed,
        warnings: Vec::new(),
    };
    proof {
        assert(r@ =~= Status::initial(platform, place_of(client_path)));
    }
    r
}

/// What comes first when the user asks for the status of a machine.
#[derive(Debug, PartialEq, Eq)]
pub enum StatusStep {
    /// Show this; nothing is fetched for it.
    Show { status: VatisStatus },
    /// Fetch the published profiles and read the store, for [`status_for`].
    Fetch { client_path: Location },
}

/// What comes first when the user asks for the status of a machine whose client is at
/// `client_path`, if there is one.
///
/// Without a client nothing is fetched: there is nothing to say about profiles yet, and no
/// reason to spend a download finding that out.
pub fn first_step(platform: Platform, client_path: Option<Location>) -> (r: StatusStep)
    ensures
        match client_path {
            None => r matches StatusStep::Show { status } && status@ == Status::initial(
                platform,
                None,
            ),
            Some(path) => r matches StatusStep::Fetch { client_path } && client_path@ == path@,
        },
{
    match client_path {
        None => StatusStep::Show { status: initial_status(platform, None) },
        Some(client_path) => StatusStep::Fetch { client_path },
    }
}

impl ProfileOp {
    /// What is shown for the operation's region.
    pub fn entry(&self) -> (r: ProfileEntry)
        ensures
            r == self@.entry(),
    {
        let state = match self {
            ProfileOp::Write { .. } => ProfileState::Missing,
            ProfileOp::BackupThenReplace { .. } => ProfileState::Superseded,
            ProfileOp::BackUp { .. } => ProfileState::Superseded,
            ProfileOp::Skip { .. } => ProfileState::Current,
        };
        ProfileEntry { fir: self.fir(), state }
    }
}

/// What is shown for the regions of a plan.
fn entries_of(ops: &Vec<ProfileOp>) -> (r: Vec<ProfileEntry>)
    ensures
        r@ == views(ops@).map_values(|op: Op| op.entry()),
{
    let ghost all = views(ops@).map_values(|op: Op| op.entry());
    let mut r: Vec<ProfileEntry> = Vec::new();
    let mut i: usize = 0;
    while i < ops.len()
        invariant
            i <= ops@.len(),
            all == views(ops@).map_values(|op: Op| op.entry()),
            r@ =~= all.take(i as int),
        decreases ops@.len() - i,
    {
        r.push(ops[i].entry());
        i = i + 1;
    }
    r
}

/// What is shown when a client is installed, for the regions `firs`: the store was read and
/// the published profiles were downloaded.
pub fn status_for(
    platform: Platform,
    home: &Location,
    client_path: Location,
    stored: &[StoredProfile],
    store_warnings: Vec<Warning>,
    canonical: &[CanonicalProfile],
    firs: &[FirCode],
) -> (r: VatisStatus)
    ensures
        r@ == Status::complete(
            platform,
            home@,
            client_path@,
            views(store_warnings@),
            planned(views(stored@), views(canonical@), firs@),
        ),
{
    let decided = plan(stored, canonical, firs);
    let needs_attention = decided.has_work();
    let entries = entries_of(&decided.ops);
    let mut warnings = store_warnings;
    let mut plan_warnings = decided.warnings;
    let ghost said = views(warnings@) + views(plan_warnings@);
    warnings.append(&mut plan_warnings);
    let profiles_dir = profiles_dir_for(platform, home);
    let backup_dir = backup_dir_for(platform, home);
    let r = VatisStatus {
        client_installed: true,
        client_path: Some(client_path),
        platform: platform_name_for(platform),
        profiles_dir: Some(profiles_dir),
        backup_dir: Some(backup_dir),
        entries,
        needs_attention,
        warnings,
    };
    proof {
        assert(views(r.warnings@) =~= said);
    }
    r
}

/// With a client installed, the user has something to act on exactly when some region asked
/// for needs work: a converged machine raises nothing.
pub proof fn law_attention_is_for_work(
    platform: Platform,
    home: Place,
    client_path: Place,
    stored: Seq<Stored>,
    store_warnings: Seq<Notice>,
    canonical: Seq<Published>,
    firs: Seq<FirCode>,
)
    ensures
        Status::complete(
            platform,
            home,
            client_path,
            store_warnings,
            planned(stored, canonical, firs),
        ).needs_attention <==> exists|i: int|
            0 <= i < firs.len() && needs_work(stored, canonical, #[trigger] firs[i]),
{
    law_a_plan_has_work_when_a_region_needs_it(stored, canonical, firs);
}

/// With a client installed, the user has something to act on exactly when some entry shown
/// is not current.
pub proof fn law_attention_is_for_what_is_shown(
    platform: Platform,
    home: Place,
    client_path: Place,
    store_warnings: Seq<Notice>,
    plan: Decision,
)
    ensures
        Status::complete(platform, home, client_path, store_warnings, plan).needs_attention
            <==> exists|i: int|
            0 <= i < plan.ops.len() && (#[trigger] Status::complete(
                platform,
                home,
                client_path,
                store_warnings,
                plan,
            ).entries[i]).state != ProfileState::Current,
{
    let entries = Status::complete(platform, home, client_path, store_warnings, plan).entries;
    if plan.has_work() {
        let i = choose|i: int| 0 <= i < plan.ops.len() && #[trigger] plan.ops[i].is_actionable();
        assert(entries[i].state != ProfileState::Current);
    }
    assert forall|i: int|
        0 <= i < plan.ops.len() && (#[trigger] entries[i]).state
            != ProfileState::Current implies plan.has_work() by {
        assert(plan.ops[i].is_actionable());
    }
}

} // verus!
