//! Diagnosing the skill entries of tool directories against the central
//! skills repository, and planning their repair.
use vstd::prelude::*;
use crate::strings::{opt_view, strs_view, starts_with_dot};
use crate::records::SkillRecord;
use crate::fresh::{new_v4_id, now_millis, is_hyphenated_v4};

verus! {

// ---------------------------------------------------------------------------
// Issues
// ---------------------------------------------------------------------------

/// The kinds of problem an entry of a tool's skills directory can have.
#[derive(PartialEq, Eq, Structural, Clone, Copy, Debug)]
pub enum IssueKind {
    /// A symlink whose target does not exist.
    BrokenSymlink,
    /// A symlink to an existing place outside the central repository.
    WrongTargetSymlink,
    /// A directory whose content equals that of its central counterpart.
    PhysicalCopyIdentical,
    /// A directory whose content differs from its central counterpart,
    /// or whose content could not be compared.
    PhysicalCopyDiverged,
    /// A directory with no central counterpart.
    Orphan,
}

/// The name under which an issue kind is reported.
pub open spec fn issue_kind_text(k: IssueKind) -> Seq<char> {
    match k {
        IssueKind::BrokenSymlink => "broken_symlink"@,
        IssueKind::WrongTargetSymlink => "wrong_target_symlink"@,
        IssueKind::PhysicalCopyIdentical => "physical_copy_identical"@,
        IssueKind::PhysicalCopyDiverged => "physical_copy_diverged"@,
        IssueKind::Orphan => "orphan"@,
    }
}

impl IssueKind {
    /// The name under which this kind is reported.
    pub fn as_string(&self) -> (s: String)
        ensures
            s@ == issue_kind_text(*self),
    {
        match self {
            IssueKind::BrokenSymlink => String::from_str("broken_symlink"),
            IssueKind::WrongTargetSymlink => String::from_str("wrong_target_symlink"),
            IssueKind::PhysicalCopyIdentical => String::from_str("physical_copy_identical"),
            IssueKind::PhysicalCopyDiverged => String::from_str("physical_copy_diverged"),
            IssueKind::Orphan => String::from_str("orphan"),
        }
    }
}

/// A problem found with one skill entry of one tool.
#[derive(Clone, Debug)]
pub struct SkillLinkIssue {
    pub tool_key: String,
    pub tool_display_name: String,
    pub skill_name: String,
    pub found_path: String,
    pub issue_type: String,
    pub central_path: Option<String>,
}

/// The mathematical value of a [`SkillLinkIssue`].
pub struct IssueView {
    pub tool_key: Seq<char>,
    pub tool_display_name: Seq<char>,
    pub skill_name: Seq<char>,
    pub found_path: Seq<char>,
    pub issue_type: Seq<char>,
    pub central_path: Option<Seq<char>>,
}

impl View for SkillLinkIssue {
    type V = IssueView;

    open spec fn view(&self) -> IssueView {
        IssueView {
            tool_key: self.tool_key@,
            tool_display_name: self.tool_display_name@,
            skill_name: self.skill_name@,
            found_path: self.found_path@,
            issue_type: self.issue_type@,
            central_path: opt_view(self.central_path),
        }
    }
}

/// The views of a sequence of issues.
pub open spec fn issues_view(v: Seq<SkillLinkIssue>) -> Seq<IssueView> {
    v.map_values(|i: SkillLinkIssue| i@)
}

// ---------------------------------------------------------------------------
// What is known of a directory entry
// ---------------------------------------------------------------------------

/// What was observed of one entry of a tool's skills directory.
pub struct EntryFacts {
    /// The entry's file name, or `None` when it is not valid Unicode.
    pub name: Option<String>,
    /// The entry's path, as text.
    pub found_path: String,
    /// Whether the entry itself is a symbolic link.
    pub is_symlink: bool,
    /// The components of the link's target, when the entry is a link whose
    /// target could be read.
    pub link_target: Option<Vec<String>>,
    /// Whether the entry exists, following links.
    pub exists: bool,
    /// Whether the entry is a directory, following links.
    pub is_dir: bool,
    /// The path, as text, that a skill of this name has in the central repository.
    pub central_path: String,
    /// Whether that central path exists.
    pub central_exists: bool,
    /// The content hash of the entry's directory, when it could be computed.
    pub local_hash: Option<String>,
    /// The content hash of the central counterpart, when it could be computed.
    pub central_hash: Option<String>,
}

/// The scan of one tool's skills directory.
pub struct AdapterScan {
    pub tool_key: String,
    pub tool_display_name: String,
    /// The entries of the directory, in the order they were listed; empty
    /// when the directory is missing or cannot be listed.
    pub entries: Vec<EntryFacts>,
}

/// `prefix` is an initial run of the path components `path`.
pub open spec fn has_prefix(path: Seq<Seq<char>>, prefix: Seq<Seq<char>>) -> bool {
    prefix.len() <= path.len() && path.subrange(0, prefix.len() as int) == prefix
}

/// A link target lies inside the central repository, whose path has the
/// components `central`.
pub open spec fn target_in_central(target: Option<Vec<String>>, central: Seq<Seq<char>>) -> bool {
    match target {
        Some(t) => has_prefix(strs_view(t@), central),
        None => false,
    }
}

/// Whether a link, whose target has the components `link_target` (if it
/// could be read), points into the central repository.
pub fn is_symlink_to_central(link_target: &Option<Vec<String>>, central: &Vec<String>) -> (r: bool)
    ensures
        r == target_in_central(*link_target, strs_view(central@)),
{
    match link_target {
        None => false,
        Some(t) => {
            if t.len() < central.len() {
                return false;
            }
            let mut i: usize = 0;
            while i < central.len()
                invariant
                    i <= central.len() <= t.len(),
                    *link_target == Some(*t),
                    forall|j: int| 0 <= j < i ==> t@[j]@ == central@[j]@,
                decreases central.len() - i,
            {
                if !(t[i] == central[i]) {
                    let ghost ts = strs_view(t@).subrange(0, central@.len() as int);
                    assert(ts[i as int] == t@[i as int]@);
                    assert(strs_view(central@)[i as int] == central@[i as int]@);
                    assert(ts != strs_view(central@));
                    return false;
                }
                i = i + 1;
            }
            assert(strs_view(t@).subrange(0, central@.len() as int) =~= strs_view(central@));
            true
        },
    }
}

/// The entry's name is present and does not start with a full stop.
pub open spec fn visible_name(f: EntryFacts) -> bool {
    match f.name {
        Some(n) => !(n@.len() > 0 && n@[0] == '.'),
        None => false,
    }
}

/// Both content hashes are known and equal.
pub open spec fn same_content(a: Option<String>, b: Option<String>) -> bool {
    match (a, b) {
        (Some(x), Some(y)) => x@ == y@,
        _ => false,
    }
}

/// The kind of problem an entry has, and the central path reported with it.
pub open spec fn entry_verdict(f: EntryFacts, central: Seq<Seq<char>>) -> Option<(IssueKind, Option<Seq<char>>)> {
    if !visible_name(f) {
        None
    } else if f.is_symlink {
        if target_in_central(f.link_target, central) {
            if !f.exists {
                Some((IssueKind::BrokenSymlink, None))
            } else {
                None
            }
        } else if f.exists {
            Some((IssueKind::WrongTargetSymlink, if f.central_exists { Some(f.central_path@) } else { None }))
        } else {
            Some((IssueKind::BrokenSymlink, None))
        }
    } else if f.is_dir {
        if f.central_exists {
            if same_content(f.local_hash, f.central_hash) {
                Some((IssueKind::PhysicalCopyIdentical, Some(f.central_path@)))
            } else {
                Some((IssueKind::PhysicalCopyDiverged, Some(f.central_path@)))
            }
        } else {
            Some((IssueKind::Orphan, None))
        }
    } else {
        None
    }
}

/// The issue reported for an entry of the tool `key` (shown as `display`).
pub open spec fn entry_issue(key: Seq<char>, display: Seq<char>, central: Seq<Seq<char>>, f: EntryFacts) -> Option<IssueView> {
    match entry_verdict(f, central) {
        Some((kind, cp)) => Some(IssueView {
            tool_key: key,
            tool_display_name: display,
            skill_name: f.name.unwrap()@,
            found_path: f.found_path@,
            issue_type: issue_kind_text(kind),
            central_path: cp,
        }),
        None => None,
    }
}

/// The issues of a run of entries, in entry order.
pub open spec fn scan_issues(key: Seq<char>, display: Seq<char>, central: Seq<Seq<char>>, entries: Seq<EntryFacts>) -> Seq<IssueView>
    decreases entries.len(),
{
    if entries.len() == 0 {
        Seq::empty()
    } else {
        let rest = scan_issues(key, display, central, entries.drop_last());
        match entry_issue(key, display, central, entries.last()) {
            Some(i) => rest.push(i),
            None => rest,
        }
    }
}

/// The issues of a run of tool scans, tool after tool.
pub open spec fn all_issues(central: Seq<Seq<char>>, scans: Seq<AdapterScan>) -> Seq<IssueView>
    decreases scans.len(),
{
    if scans.len() == 0 {
        Seq::empty()
    } else {
        let s = scans.last();
        all_issues(central, scans.drop_last()) + scan_issues(s.tool_key@, s.tool_display_name@, central, s.entries@)
    }
}

/// Whether the content of an entry has to be compared with its central
/// counterpart before it can be judged; only then are its hashes read.
pub fn needs_content_hashes(f: &EntryFacts) -> (r: bool)
    ensures
        r == (visible_name(*f) && !f.is_symlink && f.is_dir && f.central_exists),
{
    let visible = match &f.name {
        Some(n) => !starts_with_dot(n.as_str()),
        None => false,
    };
    visible && !f.is_symlink && f.is_dir && f.central_exists
}

/// Judges one entry of a tool's skills directory.
pub fn diagnose_entry(tool_key: &String, tool_display_name: &String, central: &Vec<String>, f: &EntryFacts) -> (r: Option<SkillLinkIssue>)
    ensures
        match r {
            Some(i) => entry_issue(tool_key@, tool_display_name@, strs_view(central@), *f) == Some(i@),
            None => entry_issue(tool_key@, tool_display_name@, strs_view(central@), *f) is None,
        },
{
    let name = match &f.name {
        Some(n) => n,
        None => return None,
    };
    if starts_with_dot(name.as_str()) {
        return None;
    }
    let verdict: Option<(IssueKind, Option<String>)> = if f.is_symlink {
        if is_symlink_to_central(&f.link_target, central) {
            if !f.exists {
                Some((IssueKind::BrokenSymlink, None))
            } else {
                None
            }
        } else if f.exists {
            Some((IssueKind::WrongTargetSymlink, if f.central_exists { Some(f.central_path.clone()) } else { None }))
        } else {
            Some((IssueKind::BrokenSymlink, None))
        }
    } else if f.is_dir {
        if f.central_exists {
            let identical = match (&f.local_hash, &f.central_hash) {
                (Some(a), Some(b)) => *a == *b,
                _ => false,
            };
            if identical {
                Some((IssueKind::PhysicalCopyIdentical, Some(f.central_path.clone())))
            } else {
                Some((IssueKind::PhysicalCopyDiverged, Some(f.central_path.clone())))
            }
        } else {
            Some((IssueKind::Orphan, None))
        }
    } else {
        None
    };
    match verdict {
        Some((kind, central_path)) => Some(SkillLinkIssue {
            tool_key: tool_key.clone(),
            tool_display_name: tool_display_name.clone(),
            skill_name: name.clone(),
            found_path: f.found_path.clone(),
            issue_type: kind.as_string(),
            central_path,
        }),
        None => None,
    }
}

/// Judges every entry of one tool's skills directory; the issues come in
/// entry order, and entries without a problem, hidden entries and entries
/// whose name is not valid Unicode give none.
pub fn diagnose_adapter_skills(central: &Vec<String>, scan: &AdapterScan) -> (r: Vec<SkillLinkIssue>)
    ensures
        issues_view(r@) == scan_issues(scan.tool_key@, scan.tool_display_name@, strs_view(central@), scan.entries@),
{
    let mut r: Vec<SkillLinkIssue> = Vec::new();
    let mut i: usize = 0;
    while i < scan.entries.len()
        invariant
            i <= scan.entries.len(),
            issues_view(r@) == scan_issues(scan.tool_key@, scan.tool_display_name@, strs_view(central@), scan.entries@.subrange(0, i as int)),
        decreases scan.entries.len() - i,
    {
        let ghost prev = r@;
        let found = diagnose_entry(&scan.tool_key, &scan.tool_display_name, central, &scan.entries[i]);
        assert(scan.entries@.subrange(0, i + 1).drop_last() =~= scan.entries@.subrange(0, i as int));
        match found {
            Some(issue) => {
                r.push(issue);
                assert(issues_view(r@) =~= issues_view(prev).push(issue@));
            },
            None => {},
        }
        i = i + 1;
    }
    assert(scan.entries@.subrange(0, i as int) =~= scan.entries@);
    r
}

/// Judges the skills directories of all tools, tool after tool, each in
/// entry order.
pub fn diagnose_skill_links(central: &Vec<String>, scans: &Vec<AdapterScan>) -> (r: Vec<SkillLinkIssue>)
    ensures
        issues_view(r@) == all_issues(strs_view(central@), scans@),
{
    let mut r: Vec<SkillLinkIssue> = Vec::new();
    let mut i: usize = 0;
    while i < scans.len()
        invariant
            i <= scans.len(),
            issues_view(r@) == all_issues(strs_view(central@), scans@.subrange(0, i as int)),
        decreases scans.len() - i,
    {
        let mut found = diagnose_adapter_skills(central, &scans[i]);
        let ghost prev = r@;
        let ghost added = found@;
        r.append(&mut found);
        assert(scans@.subrange(0, i + 1).drop_last() =~= scans@.subrange(0, i as int));
        assert(issues_view(r@) =~= issues_view(prev) + issues_view(added));
        i = i + 1;
    }
    assert(scans@.subrange(0, i as int) =~= scans@);
    r
}


// ---------------------------------------------------------------------------
// Repairing one entry
// ---------------------------------------------------------------------------

/// A step of repairing one entry, carried out by the caller in order.
#[derive(PartialEq, Eq, Structural, Clone, Copy, Debug)]
pub enum LinkStep {
    /// Copy the found skill into the central repository.
    InstallIntoCentral,
    /// Register the installed skill in the store (see [`register_plan`]).
    RegisterImportedSkill,
    /// Remove what is at the found path.
    RemoveFound,
    /// Make the found path a symbolic link to the central skill.
    LinkToCentral,
}

/// Why a repair cannot be planned.
pub enum LinkError {
    NotFound(String),
    InvalidInput(String),
}

/// The steps that repair an entry with the given action, or `None` when the
/// action is refused.
pub open spec fn fix_steps(action: Seq<char>, central_exists: bool) -> Option<Seq<LinkStep>> {
    if action == "relink"@ {
        if central_exists {
            Some(seq![LinkStep::RemoveFound, LinkStep::LinkToCentral])
        } else {
            None
        }
    } else if action == "delete"@ {
        Some(seq![LinkStep::RemoveFound])
    } else if action == "import_and_relink"@ {
        if central_exists {
            Some(seq![LinkStep::RemoveFound, LinkStep::LinkToCentral])
        } else {
            Some(seq![
                LinkStep::InstallIntoCentral,
                LinkStep::RegisterImportedSkill,
                LinkStep::RemoveFound,
                LinkStep::LinkToCentral,
            ])
        }
    } else {
        None
    }
}

/// The message of the error for relinking to a missing central skill.
pub open spec fn missing_central_message() -> Seq<char> {
    "Central skill does not exist; cannot relink"@
}

/// The message of the error for an action that is not known.
pub open spec fn unknown_action_message(action: Seq<char>) -> Seq<char> {
    "Unknown action: "@ + action
}

/// The message of the error for a tool that is not known.
pub open spec fn unknown_tool_message(tool_key: Seq<char>) -> Seq<char> {
    "Unknown tool: "@ + tool_key
}

/// Plans the repair of the entry of tool `tool_key` with `action`
/// (`relink`, `delete` or `import_and_relink`), given whether the tool was
/// found and whether the skill exists in the central repository. An unknown
/// tool is refused before the action is looked at.
pub fn fix_skill_link(tool_key: &String, tool_found: bool, action: &String, central_exists: bool) -> (r: Result<Vec<LinkStep>, LinkError>)
    ensures
        !tool_found ==> (r matches Err(LinkError::NotFound(m)) && m@ == unknown_tool_message(tool_key@)),
        tool_found ==> match r {
            Ok(steps) => fix_steps(action@, central_exists) == Some(steps@),
            Err(LinkError::NotFound(m)) => action@ == "relink"@ && !central_exists
                && m@ == missing_central_message(),
            Err(LinkError::InvalidInput(m)) => action@ != "relink"@ && action@ != "delete"@
                && action@ != "import_and_relink"@ && m@ == unknown_action_message(action@),
        },
{
    if !tool_found {
        return Err(LinkError::NotFound(String::from_str("Unknown tool: ").concat(tool_key.as_str())));
    }
    let mut steps: Vec<LinkStep> = Vec::new();
    if *action == String::from_str("relink") {
        if !central_exists {
            return Err(LinkError::NotFound(String::from_str("Central skill does not exist; cannot relink")));
        }
        steps.push(LinkStep::RemoveFound);
        steps.push(LinkStep::LinkToCentral);
    } else if *action == String::from_str("delete") {
        steps.push(LinkStep::RemoveFound);
    } else if *action == String::from_str("import_and_relink") {
        if !central_exists {
            steps.push(LinkStep::InstallIntoCentral);
            steps.push(LinkStep::RegisterImportedSkill);
        }
        steps.push(LinkStep::RemoveFound);
        steps.push(LinkStep::LinkToCentral);
    } else {
        let msg = String::from_str("Unknown action: ").concat(action.as_str());
        return Err(LinkError::InvalidInput(msg));
    }
    assert(fix_steps(action@, central_exists) == Some(steps@));
    Ok(steps)
}

/// `r` is the record of a skill imported from `found_path` into
/// `central_path`, with identifier `id`, made at time `now`.
pub open spec fn is_imported_record(
    r: SkillRecord,
    id: Seq<char>,
    name: Seq<char>,
    description: Option<Seq<char>>,
    found_path: Seq<char>,
    central_path: Seq<char>,
    hash: Seq<char>,
    now: i64,
) -> bool {
    &&& r.id@ == id
    &&& r.name@ == name
    &&& opt_view(r.description) == description
    &&& r.source_type@ == "import"@
    &&& opt_view(r.source_ref) == Some(found_path)
    &&& r.source_ref_resolved is None
    &&& r.source_subpath is None
    &&& r.source_branch is None
    &&& r.source_revision is None
    &&& r.remote_revision is None
    &&& r.central_path@ == central_path
    &&& opt_view(r.content_hash) == Some(hash)
    &&& r.enabled
    &&& r.created_at == now
    &&& r.updated_at == now
    &&& r.status@ == "ok"@
    &&& r.update_status@ == "local_only"@
    &&& r.last_checked_at == Some(now)
    &&& r.last_check_error is None
}

/// The record of a skill imported from a tool directory into the central
/// repository.
pub fn imported_skill_record(
    id: String,
    name: String,
    description: Option<String>,
    found_path: String,
    central_path: String,
    hash: String,
    now: i64,
) -> (r: SkillRecord)
    ensures
        is_imported_record(r, id@, name@, opt_view(description), found_path@, central_path@, hash@, now),
{
    SkillRecord {
        id,
        name,
        description,
        source_type: String::from_str("import"),
        source_ref: Some(found_path),
        source_ref_resolved: None,
        source_subpath: None,
        source_branch: None,
        source_revision: None,
        remote_revision: None,
        central_path,
        content_hash: Some(hash),
        enabled: true,
        created_at: now,
        updated_at: now,
        status: String::from_str("ok"),
        update_status: String::from_str("local_only"),
        last_checked_at: Some(now),
        last_check_error: None,
    }
}

/// The record of a skill imported from a tool directory, with a fresh
/// random identifier and the current time.
pub fn new_imported_skill_record(
    name: String,
    description: Option<String>,
    found_path: String,
    central_path: String,
    hash: String,
) -> (r: SkillRecord)
    ensures
        is_hyphenated_v4(r.id@),
        r.created_at >= 0,
        is_imported_record(r, r.id@, name@, opt_view(description), found_path@, central_path@, hash@, r.created_at),
{
    let now = now_millis();
    let id = new_v4_id();
    imported_skill_record(id, name, description, found_path, central_path, hash, now)
}

/// A change to the store that registers an imported skill, carried out by
/// the caller in order. When the skill cannot be inserted the repair stops
/// with that error; a failure to join the scenario is ignored.
pub enum RegisterStep {
    InsertSkill(SkillRecord),
    AddToScenario { scenario_id: String, skill_id: String },
}

/// Plans the registration of a skill imported into the central repository:
/// nothing when a stored skill already has its central path; otherwise the
/// insertion of `record`, then, when a scenario is active, its joining that
/// scenario.
pub fn register_plan(already_known: bool, active_scenario_id: Option<String>, record: SkillRecord) -> (r: Vec<RegisterStep>)
    ensures
        already_known ==> r@.len() == 0,
        !already_known ==> {
            &&& r@.len() == (if active_scenario_id is Some { 2int } else { 1int })
            &&& r@[0] matches RegisterStep::InsertSkill(x) && x == record
            &&& active_scenario_id matches Some(sid) ==> (r@[1] matches RegisterStep::AddToScenario { scenario_id, skill_id }
                && scenario_id@ == sid@ && skill_id@ == record.id@)
        },
{
    let mut r: Vec<RegisterStep> = Vec::new();
    if already_known {
        return r;
    }
    let skill_id = record.id.clone();
    r.push(RegisterStep::InsertSkill(record));
    match active_scenario_id {
        Some(scenario_id) => r.push(RegisterStep::AddToScenario { scenario_id, skill_id }),
        None => {},
    }
    r
}

// ---------------------------------------------------------------------------
// Repairing every entry that needs no decision
// ---------------------------------------------------------------------------

/// What the bulk repair does with one issue.
#[derive(PartialEq, Eq, Structural, Clone, Copy, Debug)]
pub enum BulkAction {
    /// Replace the found copy by a link to the central skill.
    Relink,
    /// Remove the broken link.
    RemoveBroken,
    /// Leave the entry as it is.
    Skip,
}

/// An issue offered to the bulk repair, with whether its central skill exists.
pub struct FixCandidate {
    pub issue: SkillLinkIssue,
    pub central_exists: bool,
}

/// The bulk action for an issue of type `issue_type`.
pub open spec fn bulk_action(issue_type: Seq<char>, central_exists: bool) -> BulkAction {
    if issue_type == "physical_copy_identical"@ {
        if central_exists {
            BulkAction::Relink
        } else {
            BulkAction::Skip
        }
    } else if issue_type == "broken_symlink"@ {
        BulkAction::RemoveBroken
    } else {
        BulkAction::Skip
    }
}

/// Plans the bulk repair: one action per candidate, in order.
pub fn fix_all_skill_links(candidates: &Vec<FixCandidate>) -> (r: Vec<BulkAction>)
    ensures
        r@.len() == candidates@.len(),
        forall|i: int| 0 <= i < r@.len() ==> r@[i] == bulk_action(
            #[trigger] candidates@[i].issue.issue_type@,
            candidates@[i].central_exists,
        ),
        r@ == bulk_actions(
            issues_view(candidates@.map_values(|c: FixCandidate| c.issue)),
            candidates@.map_values(|c: FixCandidate| c.central_exists),
        ),
{
    let identical = String::from_str("physical_copy_identical");
    let broken = String::from_str("broken_symlink");
    let mut r: Vec<BulkAction> = Vec::new();
    let mut i: usize = 0;
    while i < candidates.len()
        invariant
            i <= candidates.len(),
            identical@ == "physical_copy_identical"@,
            broken@ == "broken_symlink"@,
            r@.len() == i,
            forall|j: int| 0 <= j < i ==> r@[j] == bulk_action(
                #[trigger] candidates@[j].issue.issue_type@,
                candidates@[j].central_exists,
            ),
        decreases candidates.len() - i,
    {
        let c = &candidates[i];
        let a = if c.issue.issue_type == identical {
            if c.central_exists {
                BulkAction::Relink
            } else {
                BulkAction::Skip
            }
        } else if c.issue.issue_type == broken {
            BulkAction::RemoveBroken
        } else {
            BulkAction::Skip
        };
        r.push(a);
        i = i + 1;
    }
    assert(r@ =~= bulk_actions(
        issues_view(candidates@.map_values(|c: FixCandidate| c.issue)),
        candidates@.map_values(|c: FixCandidate| c.central_exists),
    ));
    r
}

/// The counts of a bulk repair.
#[derive(Clone, Debug)]
pub struct FixAllResult {
    pub relinked: usize,
    pub deleted: usize,
    pub skipped: usize,
}

/// The counts after recording that `action` was carried out, successfully
/// or not.
pub open spec fn count_outcome(c: (nat, nat, nat), action: BulkAction, succeeded: bool) -> (nat, nat, nat) {
    match action {
        BulkAction::Relink => if succeeded { (c.0 + 1, c.1, c.2) } else { (c.0, c.1, c.2 + 1) },
        BulkAction::RemoveBroken => if succeeded { (c.0, c.1 + 1, c.2) } else { (c.0, c.1, c.2 + 1) },
        BulkAction::Skip => (c.0, c.1, c.2 + 1),
    }
}

/// The counts of a run of outcomes, starting from zero.
pub open spec fn count_outcomes(s: Seq<(BulkAction, bool)>) -> (nat, nat, nat)
    decreases s.len(),
{
    if s.len() == 0 {
        (0, 0, 0)
    } else {
        count_outcome(count_outcomes(s.drop_last()), s.last().0, s.last().1)
    }
}

impl FixAllResult {
    /// All counts zero.
    pub fn new() -> (r: FixAllResult)
        ensures
            r.relinked == 0 && r.deleted == 0 && r.skipped == 0,
    {
        FixAllResult { relinked: 0, deleted: 0, skipped: 0 }
    }

    /// The counts as a triple of naturals.
    pub open spec fn counts(&self) -> (nat, nat, nat) {
        (self.relinked as nat, self.deleted as nat, self.skipped as nat)
    }

    /// Records the outcome of one action: a successful relink or removal is
    /// counted as such, anything else as skipped.
    pub fn record(&mut self, action: BulkAction, succeeded: bool)
        requires
            old(self).relinked + old(self).deleted + old(self).skipped < usize::MAX,
        ensures
            final(self).counts() == count_outcome(old(self).counts(), action, succeeded),
    {
        match action {
            BulkAction::Relink => {
                if succeeded {
                    self.relinked = self.relinked + 1;
                } else {
                    self.skipped = self.skipped + 1;
                }
            },
            BulkAction::RemoveBroken => {
                if succeeded {
                    self.deleted = self.deleted + 1;
                } else {
                    self.skipped = self.skipped + 1;
                }
            },
            BulkAction::Skip => {
                self.skipped = self.skipped + 1;
            },
        }
    }

    /// The counts of a whole run of outcomes. Every outcome is counted once:
    /// the three counts add up to the number of outcomes.
    pub fn from_outcomes(outcomes: &Vec<(BulkAction, bool)>) -> (r: FixAllResult)
        ensures
            r.counts() == count_outcomes(outcomes@),
            r.relinked + r.deleted + r.skipped == outcomes@.len(),
    {
        let mut r = FixAllResult::new();
        let mut i: usize = 0;
        while i < outcomes.len()
            invariant
                i <= outcomes.len(),
                r.counts() == count_outcomes(outcomes@.subrange(0, i as int)),
                r.relinked + r.deleted + r.skipped == i,
            decreases outcomes.len() - i,
        {
            let (a, ok) = outcomes[i];
            r.record(a, ok);
            assert(outcomes@.subrange(0, i + 1).drop_last() =~= outcomes@.subrange(0, i as int));
            i = i + 1;
        }
        assert(outcomes@.subrange(0, i as int) =~= outcomes@);
        r
    }
}

// ---------------------------------------------------------------------------
// Laws
// ---------------------------------------------------------------------------

/// A link into the central repository whose target exists is healthy: it is
/// never reported, whatever else is known of it.
pub proof fn lemma_healthy_link_not_reported(key: Seq<char>, display: Seq<char>, central: Seq<Seq<char>>, f: EntryFacts)
    requires
        f.is_symlink,
        target_in_central(f.link_target, central),
        f.exists,
    ensures
        entry_issue(key, display, central, f) is None,
{
}

/// Hidden entries, and entries whose name is not valid Unicode, are never
/// reported.
pub proof fn lemma_hidden_entry_not_reported(key: Seq<char>, display: Seq<char>, central: Seq<Seq<char>>, f: EntryFacts)
    requires
        !visible_name(f),
    ensures
        entry_issue(key, display, central, f) is None,
{
}

/// Every reported issue has one of the five issue types, and it names a
/// central path exactly for copies of a central skill and for links to
/// elsewhere whose central skill exists.
pub proof fn lemma_reported_issue_shape(key: Seq<char>, display: Seq<char>, central: Seq<Seq<char>>, f: EntryFacts)
    requires
        entry_issue(key, display, central, f) is Some,
    ensures
        ({
            let i = entry_issue(key, display, central, f).unwrap();
            &&& exists|k: IssueKind| i.issue_type == issue_kind_text(k)
            &&& i.central_path is Some <==> (i.issue_type == issue_kind_text(IssueKind::PhysicalCopyIdentical)
                || i.issue_type == issue_kind_text(IssueKind::PhysicalCopyDiverged)
                || (i.issue_type == issue_kind_text(IssueKind::WrongTargetSymlink) && f.central_exists))
            &&& i.central_path is Some ==> i.central_path == Some(f.central_path@)
            &&& i.skill_name == f.name.unwrap()@
        }),
{
    reveal_strlit("broken_symlink");
    reveal_strlit("wrong_target_symlink");
    reveal_strlit("physical_copy_identical");
    reveal_strlit("physical_copy_diverged");
    reveal_strlit("orphan");
    let (k, cp) = entry_verdict(f, central).unwrap();
    assert(entry_issue(key, display, central, f).unwrap().issue_type == issue_kind_text(k));
}

/// The bulk repair decides nothing for the user: it relinks only identical
/// copies whose central skill exists, removes only broken links, and leaves
/// every other issue untouched.
pub proof fn lemma_bulk_repair_needs_no_decision(issue_type: Seq<char>, central_exists: bool)
    ensures
        bulk_action(issue_type, central_exists) == BulkAction::Relink
            <==> (issue_type == issue_kind_text(IssueKind::PhysicalCopyIdentical) && central_exists),
        bulk_action(issue_type, central_exists) == BulkAction::RemoveBroken
            <==> issue_type == issue_kind_text(IssueKind::BrokenSymlink),
{
    reveal_strlit("broken_symlink");
    reveal_strlit("physical_copy_identical");
    assert("broken_symlink"@.len() != "physical_copy_identical"@.len());
}

/// A repair that leaves a link always ends by linking to the central skill,
/// and a relink never runs without a central skill to link to.
pub proof fn lemma_repair_ends_linked(action: Seq<char>, central_exists: bool)
    requires
        fix_steps(action, central_exists) is Some,
        action != "delete"@,
    ensures
        fix_steps(action, central_exists).unwrap().last() == LinkStep::LinkToCentral,
        action == "relink"@ ==> central_exists,
{
}

/// A scan reports at most one issue per entry, for the entry's own name.
pub proof fn lemma_one_issue_per_entry(key: Seq<char>, display: Seq<char>, central: Seq<Seq<char>>, entries: Seq<EntryFacts>)
    ensures
        scan_issues(key, display, central, entries).len() <= entries.len(),
        forall|i: int| 0 <= i < scan_issues(key, display, central, entries).len() ==>
            exists|j: int| 0 <= j < entries.len() && entries[j].name is Some
                && (#[trigger] scan_issues(key, display, central, entries)[i]).skill_name == entries[j].name.unwrap()@,
    decreases entries.len(),
{
    if entries.len() > 0 {
        let rest = entries.drop_last();
        lemma_one_issue_per_entry(key, display, central, rest);
        let r = scan_issues(key, display, central, rest);
        let all = scan_issues(key, display, central, entries);
        assert forall|i: int| 0 <= i < all.len() implies
            exists|j: int| 0 <= j < entries.len() && entries[j].name is Some
                && (#[trigger] all[i]).skill_name == entries[j].name.unwrap()@ by {
            if i < r.len() {
                assert(all[i] == r[i]);
                let j = choose|j: int| 0 <= j < rest.len() && rest[j].name is Some
                    && r[i].skill_name == rest[j].name.unwrap()@;
                assert(entries[j] == rest[j]);
            } else {
                let last = entries.len() - 1;
                assert(entries[last] == entries.last());
            }
        }
    }
}

/// An issue type that the bulk repair leaves for the user to decide.
pub open spec fn undecided(t: Seq<char>) -> bool {
    t != issue_kind_text(IssueKind::PhysicalCopyIdentical) && t != issue_kind_text(IssueKind::BrokenSymlink)
}

/// The number of issues left for the user to decide.
pub open spec fn undecided_count(issues: Seq<IssueView>) -> nat
    decreases issues.len(),
{
    if issues.len() == 0 {
        0
    } else {
        undecided_count(issues.drop_last()) + if undecided(issues.last().issue_type) { 1nat } else { 0nat }
    }
}

/// `after` is what a successful relink leaves of the entry `before`: a link
/// of the same name into the central repository whose target exists.
pub open spec fn relinked(before: EntryFacts, after: EntryFacts, central: Seq<Seq<char>>) -> bool {
    &&& after.name == before.name
    &&& after.is_symlink
    &&& target_in_central(after.link_target, central)
    &&& after.exists
}

/// `e2` is what a bulk repair in which every action succeeded leaves of the
/// entries `e1`: broken links are gone, identical copies are relinked, and
/// every other entry is as it was.
pub open spec fn repaired_scan(e1: Seq<EntryFacts>, e2: Seq<EntryFacts>, central: Seq<Seq<char>>) -> bool
    decreases e1.len(),
{
    if e1.len() == 0 {
        e2.len() == 0
    } else {
        let f = e1.last();
        match entry_verdict(f, central) {
            Some((IssueKind::BrokenSymlink, _)) => repaired_scan(e1.drop_last(), e2, central),
            Some((IssueKind::PhysicalCopyIdentical, _)) => e2.len() > 0 && relinked(f, e2.last(), central)
                && repaired_scan(e1.drop_last(), e2.drop_last(), central),
            _ => e2.len() > 0 && e2.last() == f && repaired_scan(e1.drop_last(), e2.drop_last(), central),
        }
    }
}

/// The bulk actions for a run of issues, given whether each one's central
/// skill exists.
pub open spec fn bulk_actions(issues: Seq<IssueView>, central_exists: Seq<bool>) -> Seq<BulkAction> {
    Seq::new(issues.len(), |i: int| bulk_action(issues[i].issue_type, central_exists[i]))
}

/// Every action succeeded.
pub open spec fn all_succeeded(actions: Seq<BulkAction>) -> Seq<(BulkAction, bool)> {
    actions.map_values(|a: BulkAction| (a, true))
}

proof fn lemma_kind_texts_distinct()
    ensures
        forall|k: IssueKind| #![trigger issue_kind_text(k)]
            (k != IssueKind::PhysicalCopyIdentical && k != IssueKind::BrokenSymlink) ==> undecided(issue_kind_text(k)),
        !undecided(issue_kind_text(IssueKind::PhysicalCopyIdentical)),
        !undecided(issue_kind_text(IssueKind::BrokenSymlink)),
        issue_kind_text(IssueKind::PhysicalCopyIdentical) != issue_kind_text(IssueKind::BrokenSymlink),
{
    reveal_strlit("broken_symlink");
    reveal_strlit("wrong_target_symlink");
    reveal_strlit("physical_copy_identical");
    reveal_strlit("physical_copy_diverged");
    reveal_strlit("orphan");
    assert("broken_symlink"@.len() != "physical_copy_identical"@.len());
    assert("wrong_target_symlink"@.len() != "physical_copy_identical"@.len());
    assert("wrong_target_symlink"@.len() != "broken_symlink"@.len());
    assert("orphan"@.len() != "physical_copy_identical"@.len());
    assert("orphan"@.len() != "broken_symlink"@.len());
    assert("physical_copy_diverged"@.len() != "broken_symlink"@.len());
    assert("physical_copy_diverged"@[16] != "physical_copy_identical"@[16]);
}

proof fn lemma_repaired_issues(key: Seq<char>, display: Seq<char>, central: Seq<Seq<char>>, e1: Seq<EntryFacts>, e2: Seq<EntryFacts>)
    requires
        repaired_scan(e1, e2, central),
    ensures
        forall|i: int| 0 <= i < scan_issues(key, display, central, e2).len() ==>
            undecided(#[trigger] scan_issues(key, display, central, e2)[i].issue_type),
        scan_issues(key, display, central, e2).len() == undecided_count(scan_issues(key, display, central, e1)),
    decreases e1.len(),
{
    lemma_kind_texts_distinct();
    if e1.len() > 0 {
        let f = e1.last();
        let i1 = scan_issues(key, display, central, e1);
        let r1 = scan_issues(key, display, central, e1.drop_last());
        match entry_verdict(f, central) {
            Some((IssueKind::BrokenSymlink, _)) => {
                lemma_repaired_issues(key, display, central, e1.drop_last(), e2);
                assert(i1 == r1.push(entry_issue(key, display, central, f).unwrap()));
                assert(i1.drop_last() =~= r1);
                assert(!undecided(i1.last().issue_type));
            },
            Some((IssueKind::PhysicalCopyIdentical, _)) => {
                lemma_repaired_issues(key, display, central, e1.drop_last(), e2.drop_last());
                assert(i1 == r1.push(entry_issue(key, display, central, f).unwrap()));
                assert(i1.drop_last() =~= r1);
                assert(!undecided(i1.last().issue_type));
                assert(entry_issue(key, display, central, e2.last()) is None);
            },
            _ => {
                lemma_repaired_issues(key, display, central, e1.drop_last(), e2.drop_last());
                let i2 = scan_issues(key, display, central, e2);
                let r2 = scan_issues(key, display, central, e2.drop_last());
                assert(e2.last() == f);
                match entry_issue(key, display, central, f) {
                    Some(iv) => {
                        let (k, cp) = entry_verdict(f, central).unwrap();
                        assert(iv.issue_type == issue_kind_text(k));
                        assert(i2 == r2.push(iv));
                        assert(i1 == r1.push(iv));
                        assert(i1.drop_last() =~= r1);
                        assert(undecided(iv.issue_type));
                        assert forall|i: int| 0 <= i < i2.len() implies undecided(#[trigger] i2[i].issue_type) by {
                            if i < r2.len() {
                                assert(i2[i] == r2[i]);
                            }
                        }
                    },
                    None => {
                        assert(i1 == r1);
                        assert(i2 == r2);
                    },
                }
            },
        }
    }
}

proof fn lemma_idle_counts(issues: Seq<IssueView>, c: Seq<bool>)
    requires
        c.len() == issues.len(),
        forall|i: int| 0 <= i < issues.len() ==> undecided(#[trigger] issues[i].issue_type),
    ensures
        count_outcomes(all_succeeded(bulk_actions(issues, c))) == (0nat, 0nat, issues.len()),
    decreases issues.len(),
{
    lemma_kind_texts_distinct();
    reveal_strlit("broken_symlink");
    reveal_strlit("physical_copy_identical");
    if issues.len() > 0 {
        let n = issues.len() - 1;
        assert forall|i: int| 0 <= i < issues.drop_last().len() implies undecided(#[trigger] issues.drop_last()[i].issue_type) by {
            assert(issues.drop_last()[i] == issues[i]);
        }
        lemma_idle_counts(issues.drop_last(), c.drop_last());
        let s = all_succeeded(bulk_actions(issues, c));
        assert(s.drop_last() =~= all_succeeded(bulk_actions(issues.drop_last(), c.drop_last())));
        assert(undecided(issues[n].issue_type));
        assert(s.last() == (bulk_action(issues[n].issue_type, c[n]), true));
    }
}

proof fn lemma_first_counts(issues: Seq<IssueView>, c: Seq<bool>)
    requires
        c.len() == issues.len(),
        forall|i: int| 0 <= i < issues.len() && issues[i].issue_type == issue_kind_text(IssueKind::PhysicalCopyIdentical)
            ==> #[trigger] c[i],
    ensures
        count_outcomes(all_succeeded(bulk_actions(issues, c))).2 == undecided_count(issues),
    decreases issues.len(),
{
    lemma_kind_texts_distinct();
    reveal_strlit("broken_symlink");
    reveal_strlit("physical_copy_identical");
    if issues.len() > 0 {
        let n = issues.len() - 1;
        assert forall|i: int| 0 <= i < issues.drop_last().len()
            && issues.drop_last()[i].issue_type == issue_kind_text(IssueKind::PhysicalCopyIdentical)
            implies #[trigger] c.drop_last()[i] by {
            assert(issues.drop_last()[i] == issues[i]);
            assert(c.drop_last()[i] == c[i]);
        }
        lemma_first_counts(issues.drop_last(), c.drop_last());
        let s = all_succeeded(bulk_actions(issues, c));
        assert(s.drop_last() =~= all_succeeded(bulk_actions(issues.drop_last(), c.drop_last())));
        assert(s.last() == (bulk_action(issues[n].issue_type, c[n]), true));
        if issues[n].issue_type == issue_kind_text(IssueKind::PhysicalCopyIdentical) {
            assert(c[n]);
        }
    }
}

/// Running the bulk repair again, after a run in which every action
/// succeeded and nothing else changed, relinks and deletes nothing and skips
/// exactly what the first run skipped.
pub proof fn lemma_repeated_bulk_repair_is_idle(
    key: Seq<char>,
    display: Seq<char>,
    central: Seq<Seq<char>>,
    e1: Seq<EntryFacts>,
    e2: Seq<EntryFacts>,
    c1: Seq<bool>,
    c2: Seq<bool>,
)
    requires
        repaired_scan(e1, e2, central),
        c1.len() == scan_issues(key, display, central, e1).len(),
        c2.len() == scan_issues(key, display, central, e2).len(),
        forall|i: int| 0 <= i < c1.len()
            && scan_issues(key, display, central, e1)[i].issue_type == issue_kind_text(IssueKind::PhysicalCopyIdentical)
            ==> #[trigger] c1[i],
    ensures
        count_outcomes(all_succeeded(bulk_actions(scan_issues(key, display, central, e2), c2))) == (
            0nat,
            0nat,
            count_outcomes(all_succeeded(bulk_actions(scan_issues(key, display, central, e1), c1))).2,
        ),
{
    lemma_repaired_issues(key, display, central, e1, e2);
    lemma_idle_counts(scan_issues(key, display, central, e2), c2);
    lemma_first_counts(scan_issues(key, display, central, e1), c1);
}

/// Every issue of a scan comes from one of its entries.
proof fn lemma_issue_from_entry(key: Seq<char>, display: Seq<char>, central: Seq<Seq<char>>, entries: Seq<EntryFacts>, i: int)
    requires
        0 <= i < scan_issues(key, display, central, entries).len(),
    ensures
        exists|j: int| 0 <= j < entries.len()
            && entry_issue(key, display, central, entries[j]) == Some(scan_issues(key, display, central, entries)[i]),
    decreases entries.len(),
{
    let rest = entries.drop_last();
    let r = scan_issues(key, display, central, rest);
    if i < r.len() {
        lemma_issue_from_entry(key, display, central, rest, i);
        let j = choose|j: int| 0 <= j < rest.len() && entry_issue(key, display, central, rest[j]) == Some(r[i]);
        assert(entries[j] == rest[j]);
        match entry_issue(key, display, central, entries.last()) {
            Some(x) => assert(scan_issues(key, display, central, entries)[i] == r[i]),
            None => {},
        }
    } else {
        assert(entries[entries.len() - 1] == entries.last());
    }
}

/// The entries of a directory have pairwise distinct names.
pub open spec fn distinct_names(entries: Seq<EntryFacts>) -> bool {
    forall|a: int, b: int| 0 <= a < entries.len() && 0 <= b < entries.len() && a != b
        && (#[trigger] entries[a]).name is Some && (#[trigger] entries[b]).name is Some
        ==> entries[a].name.unwrap()@ != entries[b].name.unwrap()@
}

/// An entry that was relinked to the central repository, a link into it
/// whose target exists, is reported healthy: a scan of a directory (whose
/// entry names are distinct) reports no issue with its name.
pub proof fn lemma_relinked_entry_is_healthy(
    key: Seq<char>,
    display: Seq<char>,
    central: Seq<Seq<char>>,
    entries: Seq<EntryFacts>,
    k: int,
)
    requires
        0 <= k < entries.len(),
        distinct_names(entries),
        entries[k].name is Some,
        entries[k].is_symlink,
        target_in_central(entries[k].link_target, central),
        entries[k].exists,
    ensures
        forall|i: int| 0 <= i < scan_issues(key, display, central, entries).len()
            ==> (#[trigger] scan_issues(key, display, central, entries)[i]).skill_name != entries[k].name.unwrap()@,
{
    assert forall|i: int| 0 <= i < scan_issues(key, display, central, entries).len()
        implies (#[trigger] scan_issues(key, display, central, entries)[i]).skill_name != entries[k].name.unwrap()@ by {
        lemma_issue_from_entry(key, display, central, entries, i);
        let j = choose|j: int| 0 <= j < entries.len()
            && entry_issue(key, display, central, entries[j]) == Some(scan_issues(key, display, central, entries)[i]);
        assert(entry_issue(key, display, central, entries[k]) is None);
        assert(j != k);
        assert(entries[j].name is Some);
    }
}

/// A link target lies inside the central repository exactly when the
/// central path's components are, one by one, the target's leading
/// components; a target that differs from the central path in any of those
/// components, or is shorter, lies outside it.
pub proof fn lemma_in_central_is_component_prefix(t: Vec<String>, central: Seq<Seq<char>>)
    ensures
        target_in_central(Some(t), central) <==> (central.len() <= t@.len()
            && forall|i: int| 0 <= i < central.len() ==> (#[trigger] t@[i])@ == central[i]),
{
    if central.len() <= t@.len() {
        if forall|i: int| 0 <= i < central.len() ==> (#[trigger] t@[i])@ == central[i] {
            assert(strs_view(t@).subrange(0, central.len() as int) =~= central);
        }
        if target_in_central(Some(t), central) {
            assert forall|i: int| 0 <= i < central.len() implies (#[trigger] t@[i])@ == central[i] by {
                assert(strs_view(t@).subrange(0, central.len() as int)[i] == central[i]);
                assert(strs_view(t@)[i] == t@[i]@);
            }
        }
    }
}

/// A directory with a central counterpart is reported as an identical copy
/// exactly when both content hashes are known and equal as whole strings;
/// otherwise, in particular when the two known hashes differ anywhere, it is
/// reported as a diverged copy. Either way the central path is reported.
pub proof fn lemma_copy_judged_by_whole_hash(key: Seq<char>, display: Seq<char>, central: Seq<Seq<char>>, f: EntryFacts)
    requires
        visible_name(f),
        !f.is_symlink,
        f.is_dir,
        f.central_exists,
    ensures
        entry_issue(key, display, central, f) is Some,
        entry_issue(key, display, central, f).unwrap().central_path == Some(f.central_path@),
        entry_issue(key, display, central, f).unwrap().issue_type == issue_kind_text(IssueKind::PhysicalCopyIdentical)
            <==> (f.local_hash is Some && f.central_hash is Some
                && f.local_hash.unwrap()@ == f.central_hash.unwrap()@),
        entry_issue(key, display, central, f).unwrap().issue_type == issue_kind_text(IssueKind::PhysicalCopyDiverged)
            <==> !(f.local_hash is Some && f.central_hash is Some
                && f.local_hash.unwrap()@ == f.central_hash.unwrap()@),
{
    reveal_strlit("physical_copy_identical");
    reveal_strlit("physical_copy_diverged");
    assert("physical_copy_diverged"@[16] != "physical_copy_identical"@[16]);
}

} // verus!
