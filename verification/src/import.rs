//! Planning what importing a manifest changes in the store.
use vstd::prelude::*;
use crate::strings::{
    opt_view, strs_view, clone_opt, clone_strs, lookup_last, lookup_first, lemma_lookup_last_at,
    lemma_lookup_last_none, lemma_lookup_first_at, find_last_key, find_first_key,
};
use crate::records::{SkillRecord, ScenarioRecord, SkillRecordView, ScenarioRecordView};
use crate::manifest::{
    ExportSnapshot, ExportScenario, ExportSkill, is_export_of, names_for_ids, tags_of, active_name,
    exports_scenario, exports_skill, scenario_names, SkillsManifest, ManifestSkill, ManifestScenario, synced_keys, is_synced_setting_key,
    MANIFEST_VERSION, flags_view,
};
use crate::fresh::{new_v4_id, now_millis};

verus! {

/// The counts of an import.
#[derive(Debug)]
pub struct ImportResult {
    pub skills_imported: usize,
    pub skills_skipped: usize,
    pub skills_missing: usize,
    pub scenarios_created: usize,
}

impl Default for ImportResult {
    fn default() -> (r: ImportResult)
        ensures
            r.skills_imported == 0 && r.skills_skipped == 0 && r.skills_missing == 0 && r.scenarios_created == 0,
    {
        ImportResult { skills_imported: 0, skills_skipped: 0, skills_missing: 0, scenarios_created: 0 }
    }
}

/// Why a manifest cannot be imported.
pub enum ManifestError {
    /// The manifest was written by a newer version of the format.
    NewerVersion { found: u32, supported: u32 },
}

/// What was observed of the directory a manifest skill would occupy in the
/// skills directory.
pub struct SkillDirFacts {
    /// The directory's path, as text.
    pub central_path: String,
    /// Whether the directory exists.
    pub exists: bool,
    /// The directory's content hash, when it could be computed.
    pub content_hash: Option<String>,
}

/// A change to the store, carried out by the caller in order.
///
/// When a setting, a scenario or a skill cannot be written, the import stops
/// with that error; the failure of any other change is ignored.
pub enum ImportOp {
    SetSetting { key: String, value: String },
    InsertScenario(ScenarioRecord),
    InsertSkill(SkillRecord),
    SetTags { skill_id: String, tags: Vec<String> },
    AddSkillToScenario { scenario_id: String, skill_id: String },
    SetToolToggle { scenario_id: String, skill_id: String, tool: String, enabled: bool },
    SetActiveScenario { scenario_id: String },
}

/// The mathematical value of an [`ImportOp`].
pub enum ImportOpView {
    SetSetting(Seq<char>, Seq<char>),
    InsertScenario(ScenarioRecordView),
    InsertSkill(SkillRecordView),
    SetTags(Seq<char>, Seq<Seq<char>>),
    AddSkillToScenario(Seq<char>, Seq<char>),
    SetToolToggle(Seq<char>, Seq<char>, Seq<char>, bool),
    SetActiveScenario(Seq<char>),
}

impl View for ImportOp {
    type V = ImportOpView;

    open spec fn view(&self) -> ImportOpView {
        match self {
            ImportOp::SetSetting { key, value } => ImportOpView::SetSetting(key@, value@),
            ImportOp::InsertScenario(r) => ImportOpView::InsertScenario(r@),
            ImportOp::InsertSkill(r) => ImportOpView::InsertSkill(r@),
            ImportOp::SetTags { skill_id, tags } => ImportOpView::SetTags(skill_id@, strs_view(tags@)),
            ImportOp::AddSkillToScenario { scenario_id, skill_id } => ImportOpView::AddSkillToScenario(
                scenario_id@,
                skill_id@,
            ),
            ImportOp::SetToolToggle { scenario_id, skill_id, tool, enabled } => ImportOpView::SetToolToggle(
                scenario_id@,
                skill_id@,
                tool@,
                *enabled,
            ),
            ImportOp::SetActiveScenario { scenario_id } => ImportOpView::SetActiveScenario(scenario_id@),
        }
    }
}

impl ImportOp {
    /// Whether a failure of this change stops the import.
    pub fn is_required(&self) -> (r: bool)
        ensures
            r == (self is SetSetting || self is InsertScenario || self is InsertSkill),
    {
        match self {
            ImportOp::SetSetting { .. } => true,
            ImportOp::InsertScenario(_) => true,
            ImportOp::InsertSkill(_) => true,
            _ => false,
        }
    }
}

/// The changes and counts of an import.
pub struct ImportPlan {
    pub ops: Vec<ImportOp>,
    pub result: ImportResult,
}

/// The views of a sequence of changes.
pub open spec fn ops_view(v: Seq<ImportOp>) -> Seq<ImportOpView> {
    v.map_values(|o: ImportOp| o@)
}

// ---------------------------------------------------------------------------
// The plan, phase by phase
// ---------------------------------------------------------------------------

/// Settings: each synced entry of the manifest is written, in order.
pub open spec fn setting_ops(s: Seq<(String, String)>) -> Seq<ImportOpView>
    decreases s.len(),
{
    if s.len() == 0 {
        Seq::empty()
    } else {
        let rest = setting_ops(s.drop_last());
        let (k, v) = s.last();
        if synced_keys().contains(k@) {
            rest.push(ImportOpView::SetSetting(k@, v@))
        } else {
            rest
        }
    }
}

/// The record of a scenario created from the manifest.
pub open spec fn new_scenario_record(ms: ManifestScenario, id: Seq<char>, now: i64) -> ScenarioRecordView {
    ScenarioRecordView {
        id,
        name: ms.name@,
        description: opt_view(ms.description),
        icon: opt_view(ms.icon),
        sort_order: ms.sort_order,
        created_at: now,
        updated_at: now,
    }
}

/// Where the scenario phase stands.
pub struct ScenarioPhase {
    /// (name, id) of every scenario in the store, in order.
    pub known: Seq<(Seq<char>, Seq<char>)>,
    /// (name, id) entries: the scenario each manifest scenario name maps to.
    pub name_ids: Seq<(Seq<char>, Seq<char>)>,
    pub ops: Seq<ImportOpView>,
    pub created: nat,
}

/// Scenarios: each manifest scenario is mapped to the first stored scenario
/// of its name; when there is none, it is created with identifier `ids[n]`
/// and time `times[n]`, `n` being its position in the manifest.
pub open spec fn scenario_phase(
    known: Seq<(Seq<char>, Seq<char>)>,
    scens: Seq<ManifestScenario>,
    ids: Seq<String>,
    times: Seq<i64>,
) -> ScenarioPhase
    decreases scens.len(),
{
    if scens.len() == 0 {
        ScenarioPhase { known, name_ids: Seq::empty(), ops: Seq::empty(), created: 0 }
    } else {
        let n = scens.len() - 1;
        let p = scenario_phase(known, scens.drop_last(), ids, times);
        let ms = scens.last();
        match lookup_first(p.known, ms.name@) {
            Some(id) => ScenarioPhase { name_ids: p.name_ids.push((ms.name@, id)), ..p },
            None => {
                let id = ids[n]@;
                ScenarioPhase {
                    known: p.known.push((ms.name@, id)),
                    name_ids: p.name_ids.push((ms.name@, id)),
                    ops: p.ops.push(ImportOpView::InsertScenario(new_scenario_record(ms, id, times[n]))),
                    created: p.created + 1,
                }
            },
        }
    }
}

/// The update status a skill gets from its source: local for sources other
/// than git and skills.sh; unknown without a recorded revision; up to date
/// unless a remote revision is known and differs.
pub open spec fn update_status_text(
    source_type: Seq<char>,
    source_revision: Option<Seq<char>>,
    remote_revision: Option<Seq<char>>,
) -> Seq<char> {
    if source_type == "git"@ || source_type == "skillssh"@ {
        match source_revision {
            Some(src) => match remote_revision {
                Some(rem) => if src == rem { "up_to_date"@ } else { "update_available"@ },
                None => "up_to_date"@,
            },
            None => "unknown"@,
        }
    } else {
        "local_only"@
    }
}

/// The record of a skill imported from the manifest.
pub open spec fn new_skill_record(ms: ManifestSkill, f: SkillDirFacts, id: Seq<char>, now: i64) -> SkillRecordView {
    SkillRecordView {
        id,
        name: ms.name@,
        description: opt_view(ms.description),
        source_type: ms.source_type@,
        source_ref: opt_view(ms.source_ref),
        source_ref_resolved: opt_view(ms.source_ref_resolved),
        source_subpath: opt_view(ms.source_subpath),
        source_branch: opt_view(ms.source_branch),
        source_revision: opt_view(ms.source_revision),
        remote_revision: opt_view(ms.remote_revision),
        central_path: f.central_path@,
        content_hash: match ms.content_hash {
            Some(h) => Some(h@),
            None => opt_view(f.content_hash),
        },
        enabled: ms.enabled,
        created_at: now,
        updated_at: now,
        status: "ok"@,
        update_status: update_status_text(
            ms.source_type@,
            opt_view(ms.source_revision),
            opt_view(ms.remote_revision),
        ),
        last_checked_at: None,
        last_check_error: None,
    }
}

/// The scenario memberships of an imported skill: one for each of its
/// scenario names that maps to a scenario.
pub open spec fn membership_ops(
    names: Seq<Seq<char>>,
    name_ids: Seq<(Seq<char>, Seq<char>)>,
    skill_id: Seq<char>,
) -> Seq<ImportOpView>
    decreases names.len(),
{
    if names.len() == 0 {
        Seq::empty()
    } else {
        let rest = membership_ops(names.drop_last(), name_ids, skill_id);
        match lookup_last(name_ids, names.last()) {
            Some(sid) => rest.push(ImportOpView::AddSkillToScenario(sid, skill_id)),
            None => rest,
        }
    }
}

/// The changes that import one manifest skill.
pub open spec fn skill_ops(
    ms: ManifestSkill,
    f: SkillDirFacts,
    id: Seq<char>,
    now: i64,
    name_ids: Seq<(Seq<char>, Seq<char>)>,
) -> Seq<ImportOpView> {
    let tags = if ms.tags@.len() > 0 {
        seq![ImportOpView::SetTags(id, strs_view(ms.tags@))]
    } else {
        Seq::empty()
    };
    seq![ImportOpView::InsertSkill(new_skill_record(ms, f, id, now))] + tags + membership_ops(
        strs_view(ms.scenarios@),
        name_ids,
        id,
    )
}

/// Where the skill phase stands.
pub struct SkillPhase {
    /// The central paths of every skill in the store.
    pub registered: Seq<Seq<char>>,
    /// (name, id) of every skill in the store, in order.
    pub skills: Seq<(Seq<char>, Seq<char>)>,
    pub ops: Seq<ImportOpView>,
    pub imported: nat,
    pub skipped: nat,
    pub missing: nat,
}

/// Skills: a manifest skill whose directory is missing is counted missing;
/// one whose directory is a known skill's central path is counted skipped;
/// any other is imported with identifier `ids[base + j]` and time
/// `times[base + j]`, `j` being its position in the manifest.
pub open spec fn skill_phase(
    registered: Seq<Seq<char>>,
    skills: Seq<(Seq<char>, Seq<char>)>,
    mskills: Seq<ManifestSkill>,
    facts: Seq<SkillDirFacts>,
    name_ids: Seq<(Seq<char>, Seq<char>)>,
    ids: Seq<String>,
    times: Seq<i64>,
    base: int,
) -> SkillPhase
    decreases mskills.len(),
{
    if mskills.len() == 0 {
        SkillPhase { registered, skills, ops: Seq::empty(), imported: 0, skipped: 0, missing: 0 }
    } else {
        let j = mskills.len() - 1;
        let p = skill_phase(registered, skills, mskills.drop_last(), facts, name_ids, ids, times, base);
        let ms = mskills.last();
        let f = facts[j];
        if !f.exists {
            SkillPhase { missing: p.missing + 1, ..p }
        } else if p.registered.contains(f.central_path@) {
            SkillPhase { skipped: p.skipped + 1, ..p }
        } else {
            let id = ids[base + j]@;
            SkillPhase {
                registered: p.registered.push(f.central_path@),
                skills: p.skills.push((ms.name@, id)),
                ops: p.ops + skill_ops(ms, f, id, times[base + j], name_ids),
                imported: p.imported + 1,
                ..p
            }
        }
    }
}

/// The toggle changes of one set of (tool, enabled) entries.
pub open spec fn flag_ops(flags: Seq<(Seq<char>, bool)>, sid: Seq<char>, kid: Seq<char>) -> Seq<ImportOpView> {
    flags.map_values(|f: (Seq<char>, bool)| ImportOpView::SetToolToggle(sid, kid, f.0, f.1))
}

/// The toggle changes of one scenario: for each entry whose skill name is
/// that of a stored skill (the first of that name), its toggles.
pub open spec fn entry_toggle_ops(
    entries: Seq<(String, Vec<(String, bool)>)>,
    sid: Seq<char>,
    skills: Seq<(Seq<char>, Seq<char>)>,
) -> Seq<ImportOpView>
    decreases entries.len(),
{
    if entries.len() == 0 {
        Seq::empty()
    } else {
        let rest = entry_toggle_ops(entries.drop_last(), sid, skills);
        let e = entries.last();
        match lookup_first(skills, e.0@) {
            Some(kid) => rest + flag_ops(flags_view(e.1@), sid, kid),
            None => rest,
        }
    }
}

/// Toggles: for each manifest scenario, the toggles of its entries.
pub open spec fn toggle_ops(
    scens: Seq<ManifestScenario>,
    name_ids: Seq<(Seq<char>, Seq<char>)>,
    skills: Seq<(Seq<char>, Seq<char>)>,
) -> Seq<ImportOpView>
    decreases scens.len(),
{
    if scens.len() == 0 {
        Seq::empty()
    } else {
        let rest = toggle_ops(scens.drop_last(), name_ids, skills);
        let ms = scens.last();
        match lookup_last(name_ids, ms.name@) {
            Some(sid) => rest + entry_toggle_ops(ms.skill_tool_toggles@, sid, skills),
            None => rest,
        }
    }
}

/// The active scenario: set when the manifest names one that maps to a scenario.
pub open spec fn active_ops(m: SkillsManifest, name_ids: Seq<(Seq<char>, Seq<char>)>) -> Seq<ImportOpView> {
    match m.active_scenario {
        Some(n) => match lookup_last(name_ids, n@) {
            Some(sid) => seq![ImportOpView::SetActiveScenario(sid)],
            None => Seq::empty(),
        },
        None => Seq::empty(),
    }
}

/// (name, id) of stored scenarios.
pub open spec fn scenario_keys(v: Seq<ScenarioRecord>) -> Seq<(Seq<char>, Seq<char>)> {
    v.map_values(|r: ScenarioRecord| (r.name@, r.id@))
}

/// (name, id) of stored skills.
pub open spec fn skill_keys(v: Seq<SkillRecord>) -> Seq<(Seq<char>, Seq<char>)> {
    v.map_values(|r: SkillRecord| (r.name@, r.id@))
}

/// The central paths of stored skills.
pub open spec fn skill_paths(v: Seq<SkillRecord>) -> Seq<Seq<char>> {
    v.map_values(|r: SkillRecord| r.central_path@)
}

/// The scenario phase of importing `m` into a store with `scenarios`.
pub open spec fn import_scenarios(m: SkillsManifest, scenarios: Seq<ScenarioRecord>, ids: Seq<String>, times: Seq<i64>) -> ScenarioPhase {
    scenario_phase(scenario_keys(scenarios), m.scenarios@, ids, times)
}

/// The skill phase of importing `m` into a store with `scenarios` and `skills`.
pub open spec fn import_skills(
    m: SkillsManifest,
    scenarios: Seq<ScenarioRecord>,
    skills: Seq<SkillRecord>,
    facts: Seq<SkillDirFacts>,
    ids: Seq<String>,
    times: Seq<i64>,
) -> SkillPhase {
    skill_phase(
        skill_paths(skills),
        skill_keys(skills),
        m.skills@,
        facts,
        import_scenarios(m, scenarios, ids, times).name_ids,
        ids,
        times,
        m.scenarios@.len() as int,
    )
}

/// All changes of importing `m`, in order: settings, scenarios, skills,
/// toggles, active scenario.
pub open spec fn import_ops(
    m: SkillsManifest,
    scenarios: Seq<ScenarioRecord>,
    skills: Seq<SkillRecord>,
    facts: Seq<SkillDirFacts>,
    ids: Seq<String>,
    times: Seq<i64>,
) -> Seq<ImportOpView> {
    let sp = import_scenarios(m, scenarios, ids, times);
    let kp = import_skills(m, scenarios, skills, facts, ids, times);
    setting_ops(m.settings@) + sp.ops + kp.ops + toggle_ops(m.scenarios@, sp.name_ids, kp.skills)
        + active_ops(m, sp.name_ids)
}

/// `plan` is the plan of importing `m`.
pub open spec fn is_import_plan(
    plan: ImportPlan,
    m: SkillsManifest,
    scenarios: Seq<ScenarioRecord>,
    skills: Seq<SkillRecord>,
    facts: Seq<SkillDirFacts>,
    ids: Seq<String>,
    times: Seq<i64>,
) -> bool {
    let sp = import_scenarios(m, scenarios, ids, times);
    let kp = import_skills(m, scenarios, skills, facts, ids, times);
    &&& ops_view(plan.ops@) == import_ops(m, scenarios, skills, facts, ids, times)
    &&& plan.result.scenarios_created == sp.created
    &&& plan.result.skills_imported == kp.imported
    &&& plan.result.skills_skipped == kp.skipped
    &&& plan.result.skills_missing == kp.missing
}

// ---------------------------------------------------------------------------
// Carrying out the plan's computation
// ---------------------------------------------------------------------------

/// The update status a skill imported with these source fields gets.
pub fn update_status_for(source_type: &String, source_revision: &Option<String>, remote_revision: &Option<String>) -> (r: String)
    ensures
        r@ == update_status_text(source_type@, opt_view(*source_revision), opt_view(*remote_revision)),
{
    if *source_type == String::from_str("git") || *source_type == String::from_str("skillssh") {
        match source_revision {
            Some(src) => match remote_revision {
                Some(rem) => if *src == *rem {
                    String::from_str("up_to_date")
                } else {
                    String::from_str("update_available")
                },
                None => String::from_str("up_to_date"),
            },
            None => String::from_str("unknown"),
        }
    } else {
        String::from_str("local_only")
    }
}

fn settings_changes(settings: &Vec<(String, String)>) -> (r: Vec<ImportOp>)
    ensures
        ops_view(r@) == setting_ops(settings@),
{
    let mut r: Vec<ImportOp> = Vec::new();
    let mut i: usize = 0;
    while i < settings.len()
        invariant
            i <= settings.len(),
            ops_view(r@) == setting_ops(settings@.subrange(0, i as int)),
        decreases settings.len() - i,
    {
        let ghost prev = r@;
        assert(settings@.subrange(0, i + 1).drop_last() =~= settings@.subrange(0, i as int));
        let (k, v) = &settings[i];
        if is_synced_setting_key(k) {
            r.push(ImportOp::SetSetting { key: k.clone(), value: v.clone() });
            assert(ops_view(r@) =~= ops_view(prev).push(ImportOpView::SetSetting(k@, v@)));
        }
        i = i + 1;
    }
    assert(settings@.subrange(0, i as int) =~= settings@);
    r
}

fn scenario_record(ms: &ManifestScenario, id: String, now: i64) -> (r: ScenarioRecord)
    ensures
        r@ == new_scenario_record(*ms, id@, now),
{
    ScenarioRecord {
        id,
        name: ms.name.clone(),
        description: clone_opt(&ms.description),
        icon: clone_opt(&ms.icon),
        sort_order: ms.sort_order,
        created_at: now,
        updated_at: now,
    }
}

struct ScenarioPhaseOut {
    known: Vec<(String, String)>,
    name_ids: Vec<(String, String)>,
    ops: Vec<ImportOp>,
    created: usize,
}

fn run_scenario_phase(
    known: Vec<(String, String)>,
    scens: &Vec<ManifestScenario>,
    ids: &Vec<String>,
    times: &Vec<i64>,
) -> (r: ScenarioPhaseOut)
    requires
        ids@.len() >= scens@.len(),
        times@.len() >= scens@.len(),
    ensures
        ({
            let p = scenario_phase(crate::strings::pairs_view(known@), scens@, ids@, times@);
            &&& crate::strings::pairs_view(r.known@) == p.known
            &&& crate::strings::pairs_view(r.name_ids@) == p.name_ids
            &&& ops_view(r.ops@) == p.ops
            &&& r.created == p.created
        }),
{
    let ghost k0 = crate::strings::pairs_view(known@);
    let mut known = known;
    let mut name_ids: Vec<(String, String)> = Vec::new();
    let mut ops: Vec<ImportOp> = Vec::new();
    let mut created: usize = 0;
    let mut i: usize = 0;
    while i < scens.len()
        invariant
            i <= scens.len(),
            ids@.len() >= scens@.len(),
            times@.len() >= scens@.len(),
            created <= i,
            ({
                let p = scenario_phase(k0, scens@.subrange(0, i as int), ids@, times@);
                &&& crate::strings::pairs_view(known@) == p.known
                &&& crate::strings::pairs_view(name_ids@) == p.name_ids
                &&& ops_view(ops@) == p.ops
                &&& created == p.created
            }),
        decreases scens.len() - i,
    {
        let ghost pk = known@;
        let ghost pn = name_ids@;
        let ghost po = ops@;
        assert(scens@.subrange(0, i + 1).drop_last() =~= scens@.subrange(0, i as int));
        assert(scens@.subrange(0, i + 1).last() == scens@[i as int]);
        let ms = &scens[i];
        match find_first_key(&known, &ms.name) {
            Some(k) => {
                proof {
                    lemma_lookup_first_at(crate::strings::pairs_view(known@), ms.name@, k as int);
                }
                let id = known[k].1.clone();
                name_ids.push((ms.name.clone(), id));
                assert(crate::strings::pairs_view(name_ids@) =~= crate::strings::pairs_view(pn).push((ms.name@, pk[k as int].1@)));
            },
            None => {
                proof {
                    lemma_lookup_last_none(crate::strings::pairs_view(known@), ms.name@);
                }
                let id = ids[i].clone();
                let rec = scenario_record(ms, ids[i].clone(), times[i]);
                known.push((ms.name.clone(), id.clone()));
                name_ids.push((ms.name.clone(), id));
                ops.push(ImportOp::InsertScenario(rec));
                created = created + 1;
                assert(crate::strings::pairs_view(known@) =~= crate::strings::pairs_view(pk).push((ms.name@, ids@[i as int]@)));
                assert(crate::strings::pairs_view(name_ids@) =~= crate::strings::pairs_view(pn).push((ms.name@, ids@[i as int]@)));
                assert(ops_view(ops@) =~= ops_view(po).push(ImportOpView::InsertScenario(new_scenario_record(*ms, ids@[i as int]@, times@[i as int]))));
            },
        }
        i = i + 1;
    }
    assert(scens@.subrange(0, i as int) =~= scens@);
    ScenarioPhaseOut { known, name_ids, ops, created }
}

fn membership_changes(names: &Vec<String>, name_ids: &Vec<(String, String)>, skill_id: &String) -> (r: Vec<ImportOp>)
    ensures
        ops_view(r@) == membership_ops(strs_view(names@), crate::strings::pairs_view(name_ids@), skill_id@),
{
    let mut r: Vec<ImportOp> = Vec::new();
    let mut i: usize = 0;
    while i < names.len()
        invariant
            i <= names.len(),
            ops_view(r@) == membership_ops(strs_view(names@).subrange(0, i as int), crate::strings::pairs_view(name_ids@), skill_id@),
        decreases names.len() - i,
    {
        let ghost prev = r@;
        assert(strs_view(names@).subrange(0, i + 1).drop_last() =~= strs_view(names@).subrange(0, i as int));
        assert(strs_view(names@).subrange(0, i + 1).last() == names@[i as int]@);
        match find_last_key(name_ids, &names[i]) {
            Some(k) => {
                proof {
                    lemma_lookup_last_at(crate::strings::pairs_view(name_ids@), names@[i as int]@, k as int);
                }
                r.push(ImportOp::AddSkillToScenario { scenario_id: name_ids[k].1.clone(), skill_id: skill_id.clone() });
                assert(ops_view(r@) =~= ops_view(prev).push(ImportOpView::AddSkillToScenario(name_ids@[k as int].1@, skill_id@)));
            },
            None => {
                proof {
                    lemma_lookup_last_none(crate::strings::pairs_view(name_ids@), names@[i as int]@);
                }
            },
        }
        i = i + 1;
    }
    assert(strs_view(names@).subrange(0, i as int) =~= strs_view(names@));
    r
}

fn skill_record(ms: &ManifestSkill, f: &SkillDirFacts, id: String, now: i64) -> (r: SkillRecord)
    ensures
        r@ == new_skill_record(*ms, *f, id@, now),
{
    let content_hash = match &ms.content_hash {
        Some(h) => Some(h.clone()),
        None => clone_opt(&f.content_hash),
    };
    SkillRecord {
        id,
        name: ms.name.clone(),
        description: clone_opt(&ms.description),
        source_type: ms.source_type.clone(),
        source_ref: clone_opt(&ms.source_ref),
        source_ref_resolved: clone_opt(&ms.source_ref_resolved),
        source_subpath: clone_opt(&ms.source_subpath),
        source_branch: clone_opt(&ms.source_branch),
        source_revision: clone_opt(&ms.source_revision),
        remote_revision: clone_opt(&ms.remote_revision),
        central_path: f.central_path.clone(),
        content_hash,
        enabled: ms.enabled,
        created_at: now,
        updated_at: now,
        status: String::from_str("ok"),
        update_status: update_status_for(&ms.source_type, &ms.source_revision, &ms.remote_revision),
        last_checked_at: None,
        last_check_error: None,
    }
}

fn skill_changes(
    ms: &ManifestSkill,
    f: &SkillDirFacts,
    id: &String,
    now: i64,
    name_ids: &Vec<(String, String)>,
) -> (r: Vec<ImportOp>)
    ensures
        ops_view(r@) == skill_ops(*ms, *f, id@, now, crate::strings::pairs_view(name_ids@)),
{
    let mut r: Vec<ImportOp> = Vec::new();
    r.push(ImportOp::InsertSkill(skill_record(ms, f, id.clone(), now)));
    if ms.tags.len() > 0 {
        r.push(ImportOp::SetTags { skill_id: id.clone(), tags: clone_strs(&ms.tags) });
    }
    let ghost with_tags = r@;
    let mut memberships = membership_changes(&ms.scenarios, name_ids, id);
    let ghost added = memberships@;
    r.append(&mut memberships);
    assert(ops_view(r@) =~= ops_view(with_tags) + ops_view(added));
    r
}

struct SkillPhaseOut {
    registered: Vec<String>,
    skills: Vec<(String, String)>,
    ops: Vec<ImportOp>,
    imported: usize,
    skipped: usize,
    missing: usize,
}

fn run_skill_phase(
    registered: Vec<String>,
    skills: Vec<(String, String)>,
    mskills: &Vec<ManifestSkill>,
    facts: &Vec<SkillDirFacts>,
    name_ids: &Vec<(String, String)>,
    ids: &Vec<String>,
    times: &Vec<i64>,
    base: usize,
) -> (r: SkillPhaseOut)
    requires
        facts@.len() == mskills@.len(),
        ids@.len() >= base + mskills@.len(),
        times@.len() >= base + mskills@.len(),
    ensures
        ({
            let p = skill_phase(
                strs_view(registered@),
                crate::strings::pairs_view(skills@),
                mskills@,
                facts@,
                crate::strings::pairs_view(name_ids@),
                ids@,
                times@,
                base as int,
            );
            &&& strs_view(r.registered@) == p.registered
            &&& crate::strings::pairs_view(r.skills@) == p.skills
            &&& ops_view(r.ops@) == p.ops
            &&& r.imported == p.imported
            &&& r.skipped == p.skipped
            &&& r.missing == p.missing
        }),
{
    let ghost r0 = strs_view(registered@);
    let ghost s0 = crate::strings::pairs_view(skills@);
    let ghost ni = crate::strings::pairs_view(name_ids@);
    let mut registered = registered;
    let mut skills = skills;
    let mut ops: Vec<ImportOp> = Vec::new();
    let mut imported: usize = 0;
    let mut skipped: usize = 0;
    let mut missing: usize = 0;
    let mut j: usize = 0;
    while j < mskills.len()
        invariant
            j <= mskills.len(),
            facts@.len() == mskills@.len(),
            ids@.len() >= base + mskills@.len(),
            times@.len() >= base + mskills@.len(),
            ni == crate::strings::pairs_view(name_ids@),
            imported + skipped + missing == j,
            ({
                let p = skill_phase(r0, s0, mskills@.subrange(0, j as int), facts@, ni, ids@, times@, base as int);
                &&& strs_view(registered@) == p.registered
                &&& crate::strings::pairs_view(skills@) == p.skills
                &&& ops_view(ops@) == p.ops
                &&& imported == p.imported
                &&& skipped == p.skipped
                &&& missing == p.missing
            }),
        decreases mskills.len() - j,
    {
        let ghost pr = registered@;
        let ghost ps = skills@;
        let ghost po = ops@;
        assert(mskills@.subrange(0, j + 1).drop_last() =~= mskills@.subrange(0, j as int));
        assert(mskills@.subrange(0, j + 1).last() == mskills@[j as int]);
        let ms = &mskills[j];
        let f = &facts[j];
        if !f.exists {
            missing = missing + 1;
        } else if crate::strings::contains_str(&registered, &f.central_path) {
            skipped = skipped + 1;
        } else {
            let n_ids = ids.len();
            assert(base + j < n_ids);
            let id = &ids[base + j];
            let now = times[base + j];
            let mut changes = skill_changes(ms, f, id, now, name_ids);
            let ghost added = changes@;
            registered.push(f.central_path.clone());
            skills.push((ms.name.clone(), id.clone()));
            ops.append(&mut changes);
            imported = imported + 1;
            assert(strs_view(registered@) =~= strs_view(pr).push(f.central_path@));
            assert(crate::strings::pairs_view(skills@) =~= crate::strings::pairs_view(ps).push((ms.name@, id@)));
            assert(ops_view(ops@) =~= ops_view(po) + ops_view(added));
        }
        j = j + 1;
    }
    assert(mskills@.subrange(0, j as int) =~= mskills@);
    SkillPhaseOut { registered, skills, ops, imported, skipped, missing }
}

fn flag_changes(flags: &Vec<(String, bool)>, sid: &String, kid: &String) -> (r: Vec<ImportOp>)
    ensures
        ops_view(r@) == flag_ops(flags_view(flags@), sid@, kid@),
{
    let mut r: Vec<ImportOp> = Vec::new();
    let mut i: usize = 0;
    while i < flags.len()
        invariant
            i <= flags.len(),
            r@.len() == i,
            forall|k: int| 0 <= k < i ==> (#[trigger] r@[k])@ == ImportOpView::SetToolToggle(sid@, kid@, flags@[k].0@, flags@[k].1),
        decreases flags.len() - i,
    {
        r.push(ImportOp::SetToolToggle {
            scenario_id: sid.clone(),
            skill_id: kid.clone(),
            tool: flags[i].0.clone(),
            enabled: flags[i].1,
        });
        i = i + 1;
    }
    assert(ops_view(r@) =~= flag_ops(flags_view(flags@), sid@, kid@));
    r
}

fn entry_toggle_changes(
    entries: &Vec<(String, Vec<(String, bool)>)>,
    sid: &String,
    skills: &Vec<(String, String)>,
) -> (r: Vec<ImportOp>)
    ensures
        ops_view(r@) == entry_toggle_ops(entries@, sid@, crate::strings::pairs_view(skills@)),
{
    let mut r: Vec<ImportOp> = Vec::new();
    let mut i: usize = 0;
    while i < entries.len()
        invariant
            i <= entries.len(),
            ops_view(r@) == entry_toggle_ops(entries@.subrange(0, i as int), sid@, crate::strings::pairs_view(skills@)),
        decreases entries.len() - i,
    {
        let ghost prev = r@;
        assert(entries@.subrange(0, i + 1).drop_last() =~= entries@.subrange(0, i as int));
        assert(entries@.subrange(0, i + 1).last() == entries@[i as int]);
        let e = &entries[i];
        match find_first_key(skills, &e.0) {
            Some(k) => {
                proof {
                    lemma_lookup_first_at(crate::strings::pairs_view(skills@), e.0@, k as int);
                }
                let mut more = flag_changes(&e.1, sid, &skills[k].1);
                let ghost added = more@;
                r.append(&mut more);
                assert(ops_view(r@) =~= ops_view(prev) + ops_view(added));
            },
            None => {
                proof {
                    lemma_lookup_last_none(crate::strings::pairs_view(skills@), e.0@);
                }
            },
        }
        i = i + 1;
    }
    assert(entries@.subrange(0, i as int) =~= entries@);
    r
}

fn toggle_changes(
    scens: &Vec<ManifestScenario>,
    name_ids: &Vec<(String, String)>,
    skills: &Vec<(String, String)>,
) -> (r: Vec<ImportOp>)
    ensures
        ops_view(r@) == toggle_ops(scens@, crate::strings::pairs_view(name_ids@), crate::strings::pairs_view(skills@)),
{
    let mut r: Vec<ImportOp> = Vec::new();
    let mut i: usize = 0;
    while i < scens.len()
        invariant
            i <= scens.len(),
            ops_view(r@) == toggle_ops(scens@.subrange(0, i as int), crate::strings::pairs_view(name_ids@), crate::strings::pairs_view(skills@)),
        decreases scens.len() - i,
    {
        let ghost prev = r@;
        assert(scens@.subrange(0, i + 1).drop_last() =~= scens@.subrange(0, i as int));
        assert(scens@.subrange(0, i + 1).last() == scens@[i as int]);
        let ms = &scens[i];
        match find_last_key(name_ids, &ms.name) {
            Some(k) => {
                proof {
                    lemma_lookup_last_at(crate::strings::pairs_view(name_ids@), ms.name@, k as int);
                }
                let mut more = entry_toggle_changes(&ms.skill_tool_toggles, &name_ids[k].1, skills);
                let ghost added = more@;
                r.append(&mut more);
                assert(ops_view(r@) =~= ops_view(prev) + ops_view(added));
            },
            None => {
                proof {
                    lemma_lookup_last_none(crate::strings::pairs_view(name_ids@), ms.name@);
                }
            },
        }
        i = i + 1;
    }
    assert(scens@.subrange(0, i as int) =~= scens@);
    r
}

fn active_changes(m: &SkillsManifest, name_ids: &Vec<(String, String)>) -> (r: Vec<ImportOp>)
    ensures
        ops_view(r@) == active_ops(*m, crate::strings::pairs_view(name_ids@)),
{
    let mut r: Vec<ImportOp> = Vec::new();
    match &m.active_scenario {
        Some(n) => match find_last_key(name_ids, n) {
            Some(k) => {
                proof {
                    lemma_lookup_last_at(crate::strings::pairs_view(name_ids@), n@, k as int);
                }
                r.push(ImportOp::SetActiveScenario { scenario_id: name_ids[k].1.clone() });
                assert(ops_view(r@) =~= seq![ImportOpView::SetActiveScenario(name_ids@[k as int].1@)]);
            },
            None => {
                proof {
                    lemma_lookup_last_none(crate::strings::pairs_view(name_ids@), n@);
                }
                assert(ops_view(r@) =~= Seq::<ImportOpView>::empty());
            },
        },
        None => {
            assert(ops_view(r@) =~= Seq::<ImportOpView>::empty());
        },
    }
    r
}

fn stored_scenario_keys(v: &Vec<ScenarioRecord>) -> (r: Vec<(String, String)>)
    ensures
        crate::strings::pairs_view(r@) == scenario_keys(v@),
{
    let mut r: Vec<(String, String)> = Vec::new();
    let mut i: usize = 0;
    while i < v.len()
        invariant
            i <= v.len(),
            r@.len() == i,
            forall|k: int| 0 <= k < i ==> (#[trigger] r@[k].0@, r@[k].1@) == scenario_keys(v@)[k],
        decreases v.len() - i,
    {
        let ghost prev = r@;
        r.push((v[i].name.clone(), v[i].id.clone()));
        assert forall|k: int| 0 <= k < i + 1 implies (#[trigger] r@[k].0@, r@[k].1@) == scenario_keys(v@)[k] by {
            if k < i {
                assert(r@[k] == prev[k]);
            }
        }
        i = i + 1;
    }
    assert(crate::strings::pairs_view(r@) =~= scenario_keys(v@));
    r
}

fn stored_skill_keys(v: &Vec<SkillRecord>) -> (r: (Vec<String>, Vec<(String, String)>))
    ensures
        strs_view(r.0@) == skill_paths(v@),
        crate::strings::pairs_view(r.1@) == skill_keys(v@),
{
    let mut paths: Vec<String> = Vec::new();
    let mut keys: Vec<(String, String)> = Vec::new();
    let mut i: usize = 0;
    while i < v.len()
        invariant
            i <= v.len(),
            paths@.len() == i,
            keys@.len() == i,
            forall|k: int| 0 <= k < i ==> (#[trigger] paths@[k])@ == skill_paths(v@)[k],
            forall|k: int| 0 <= k < i ==> (#[trigger] keys@[k].0@, keys@[k].1@) == skill_keys(v@)[k],
        decreases v.len() - i,
    {
        let ghost prev_p = paths@;
        let ghost prev_k = keys@;
        paths.push(v[i].central_path.clone());
        keys.push((v[i].name.clone(), v[i].id.clone()));
        assert forall|k: int| 0 <= k < i + 1 implies (#[trigger] keys@[k].0@, keys@[k].1@) == skill_keys(v@)[k] by {
            if k < i {
                assert(keys@[k] == prev_k[k]);
            }
        }
        assert forall|k: int| 0 <= k < i + 1 implies (#[trigger] paths@[k])@ == skill_paths(v@)[k] by {
            if k < i {
                assert(paths@[k] == prev_p[k]);
            }
        }
        i = i + 1;
    }
    assert(strs_view(paths@) =~= skill_paths(v@));
    assert(crate::strings::pairs_view(keys@) =~= skill_keys(v@));
    (paths, keys)
}

/// Accepts a manifest format version this library can read, and refuses a
/// newer one.
pub fn check_manifest_version(version: u32) -> (r: Result<(), ManifestError>)
    ensures
        match r {
            Ok(()) => version <= MANIFEST_VERSION,
            Err(ManifestError::NewerVersion { found, supported }) => version > MANIFEST_VERSION
                && found == version && supported == MANIFEST_VERSION,
        },
{
    if version > MANIFEST_VERSION {
        Err(ManifestError::NewerVersion { found: version, supported: MANIFEST_VERSION })
    } else {
        Ok(())
    }
}

/// Plans the import of manifest `m` into a store holding `scenarios` and
/// `skills`, given what was observed of each manifest skill's directory
/// (`facts`, in manifest order). A created scenario or skill at position
/// `n` of the plan's numbering (scenarios first, then skills) gets the
/// identifier `ids[n]` and the time `times[n]`.
///
/// A manifest of a newer format version is refused.
pub fn plan_import(
    m: &SkillsManifest,
    scenarios: &Vec<ScenarioRecord>,
    skills: &Vec<SkillRecord>,
    facts: &Vec<SkillDirFacts>,
    ids: &Vec<String>,
    times: &Vec<i64>,
) -> (r: Result<ImportPlan, ManifestError>)
    requires
        facts@.len() == m.skills@.len(),
        ids@.len() >= m.scenarios@.len() + m.skills@.len(),
        times@.len() >= m.scenarios@.len() + m.skills@.len(),
    ensures
        match r {
            Ok(plan) => m.version <= MANIFEST_VERSION
                && is_import_plan(plan, *m, scenarios@, skills@, facts@, ids@, times@),
            Err(ManifestError::NewerVersion { found, supported }) => m.version > MANIFEST_VERSION
                && found == m.version && supported == MANIFEST_VERSION,
        },
{
    if m.version > MANIFEST_VERSION {
        return Err(ManifestError::NewerVersion { found: m.version, supported: MANIFEST_VERSION });
    }
    let mut ops = settings_changes(&m.settings);
    let ghost o1 = ops@;
    let known = stored_scenario_keys(scenarios);
    let sp = run_scenario_phase(known, &m.scenarios, ids, times);
    let (paths, keys) = stored_skill_keys(skills);
    let n_scen = m.scenarios.len();
    let kp = run_skill_phase(paths, keys, &m.skills, facts, &sp.name_ids, ids, times, n_scen);
    let mut sp_ops = sp.ops;
    let ghost o2 = sp_ops@;
    ops.append(&mut sp_ops);
    let mut kp_ops = kp.ops;
    let ghost o3 = kp_ops@;
    ops.append(&mut kp_ops);
    let mut t_ops = toggle_changes(&m.scenarios, &sp.name_ids, &kp.skills);
    let ghost o4 = t_ops@;
    ops.append(&mut t_ops);
    let mut a_ops = active_changes(m, &sp.name_ids);
    let ghost o5 = a_ops@;
    ops.append(&mut a_ops);
    assert(ops_view(ops@) =~= ops_view(o1) + ops_view(o2) + ops_view(o3) + ops_view(o4) + ops_view(o5));
    let result = ImportResult {
        skills_imported: kp.imported,
        skills_skipped: kp.skipped,
        skills_missing: kp.missing,
        scenarios_created: sp.created,
    };
    Ok(ImportPlan { ops, result })
}

/// Plans the import of a manifest, if there is one, with fresh random
/// identifiers and current times for what it creates. Without a manifest
/// there is nothing to do; a manifest of a newer format version is refused.
pub fn import_manifest(
    manifest: &Option<SkillsManifest>,
    scenarios: &Vec<ScenarioRecord>,
    skills: &Vec<SkillRecord>,
    facts: &Vec<SkillDirFacts>,
) -> (r: Result<ImportPlan, ManifestError>)
    requires
        manifest matches Some(m) ==> facts@.len() == m.skills@.len()
            && m.scenarios@.len() + m.skills@.len() <= usize::MAX,
    ensures
        manifest is None ==> (r matches Ok(plan) && plan.ops@.len() == 0 && plan.result.skills_imported == 0
            && plan.result.skills_skipped == 0 && plan.result.skills_missing == 0
            && plan.result.scenarios_created == 0),
        manifest matches Some(m) ==> match r {
            Ok(plan) => m.version <= MANIFEST_VERSION && exists|ids: Seq<String>, times: Seq<i64>|
                #![trigger is_import_plan(plan, *m, scenarios@, skills@, facts@, ids, times)]
                ids.len() == m.scenarios@.len() + m.skills@.len()
                && times.len() == m.scenarios@.len() + m.skills@.len()
                && (forall|i: int| 0 <= i < ids.len() ==> crate::fresh::is_hyphenated_v4(#[trigger] ids[i]@))
                && (forall|i: int| 0 <= i < times.len() ==> #[trigger] times[i] >= 0)
                && is_import_plan(plan, *m, scenarios@, skills@, facts@, ids, times),
            Err(ManifestError::NewerVersion { found, supported }) => m.version > MANIFEST_VERSION
                && found == m.version && supported == MANIFEST_VERSION,
        },
{
    let m = match manifest {
        Some(m) => m,
        None => {
            return Ok(ImportPlan { ops: Vec::new(), result: ImportResult::default() });
        },
    };
    if m.version > MANIFEST_VERSION {
        return Err(ManifestError::NewerVersion { found: m.version, supported: MANIFEST_VERSION });
    }
    let n = m.scenarios.len() + m.skills.len();
    let mut ids: Vec<String> = Vec::new();
    let mut times: Vec<i64> = Vec::new();
    let mut i: usize = 0;
    while i < n
        invariant
            i <= n,
            ids@.len() == i,
            times@.len() == i,
            forall|k: int| 0 <= k < i ==> crate::fresh::is_hyphenated_v4(#[trigger] ids@[k]@),
            forall|k: int| 0 <= k < i ==> #[trigger] times@[k] >= 0,
        decreases n - i,
    {
        ids.push(new_v4_id());
        times.push(now_millis());
        i = i + 1;
    }
    let r = plan_import(m, scenarios, skills, facts, &ids, &times);
    match &r {
        Ok(plan) => {
            assert(is_import_plan(*plan, *m, scenarios@, skills@, facts@, ids@, times@));
        },
        Err(_) => {},
    }
    r
}

// ---------------------------------------------------------------------------
// Laws
// ---------------------------------------------------------------------------

/// Every manifest skill is counted exactly once: imported, skipped or missing.
pub proof fn lemma_every_skill_counted(
    registered: Seq<Seq<char>>,
    skills: Seq<(Seq<char>, Seq<char>)>,
    mskills: Seq<ManifestSkill>,
    facts: Seq<SkillDirFacts>,
    name_ids: Seq<(Seq<char>, Seq<char>)>,
    ids: Seq<String>,
    times: Seq<i64>,
    base: int,
)
    ensures
        ({
            let p = skill_phase(registered, skills, mskills, facts, name_ids, ids, times, base);
            p.imported + p.skipped + p.missing == mskills.len()
        }),
    decreases mskills.len(),
{
    if mskills.len() > 0 {
        lemma_every_skill_counted(registered, skills, mskills.drop_last(), facts, name_ids, ids, times, base);
    }
}

/// No more scenarios are created than the manifest lists, and every
/// manifest scenario name maps to a scenario.
pub proof fn lemma_scenarios_bounded(
    known: Seq<(Seq<char>, Seq<char>)>,
    scens: Seq<ManifestScenario>,
    ids: Seq<String>,
    times: Seq<i64>,
)
    ensures
        scenario_phase(known, scens, ids, times).created <= scens.len(),
        scenario_phase(known, scens, ids, times).name_ids.len() == scens.len(),
        forall|n: int| 0 <= n < scens.len() ==>
            #[trigger] scenario_phase(known, scens, ids, times).name_ids[n].0 == scens[n].name@,
    decreases scens.len(),
{
    if scens.len() > 0 {
        lemma_scenarios_bounded(known, scens.drop_last(), ids, times);
    }
}

/// Some entry of `known` has the key `name`.
pub open spec fn knows_name(known: Seq<(Seq<char>, Seq<char>)>, name: Seq<char>) -> bool {
    exists|k: int| 0 <= k < known.len() && #[trigger] known[k].0 == name
}

proof fn lemma_lookup_first_some<V>(s: Seq<(Seq<char>, V)>, k: Seq<char>, idx: int)
    requires
        0 <= idx < s.len(),
        s[idx].0 == k,
    ensures
        lookup_first(s, k) is Some,
    decreases idx,
{
    if s[0].0 != k {
        assert(s.drop_first()[idx - 1] == s[idx]);
        lemma_lookup_first_some(s.drop_first(), k, idx - 1);
    }
}

/// After the scenario phase, the store knows a scenario of every manifest
/// scenario's name, and still knows every scenario it knew before.
proof fn lemma_scenario_names_known(
    known: Seq<(Seq<char>, Seq<char>)>,
    scens: Seq<ManifestScenario>,
    ids: Seq<String>,
    times: Seq<i64>,
)
    ensures
        ({
            let p = scenario_phase(known, scens, ids, times);
            &&& known.len() <= p.known.len()
            &&& p.known.subrange(0, known.len() as int) == known
            &&& forall|n: int| 0 <= n < scens.len() ==> knows_name(p.known, (#[trigger] scens[n]).name@)
        }),
    decreases scens.len(),
{
    if scens.len() > 0 {
        let q = scenario_phase(known, scens.drop_last(), ids, times);
        lemma_scenario_names_known(known, scens.drop_last(), ids, times);
        let p = scenario_phase(known, scens, ids, times);
        let last = scens.len() - 1;
        let ms = scens.last();
        assert forall|n: int| 0 <= n < scens.len() implies knows_name(p.known, (#[trigger] scens[n]).name@) by {
            if n < last {
                assert(scens.drop_last()[n] == scens[n]);
                assert(knows_name(q.known, scens.drop_last()[n].name@));
                let k = choose|k: int| 0 <= k < q.known.len() && #[trigger] q.known[k].0 == scens.drop_last()[n].name@;
                assert(p.known[k] == q.known[k]);
            } else {
                match lookup_first(q.known, ms.name@) {
                    Some(id) => {
                        if forall|k: int| 0 <= k < q.known.len() ==> q.known[k].0 != ms.name@ {
                            lemma_lookup_last_none(q.known, ms.name@);
                        }
                        let k = choose|k: int| 0 <= k < q.known.len() && q.known[k].0 == ms.name@;
                        assert(p.known[k].0 == scens[n].name@);
                    },
                    None => {
                        assert(p.known[q.known.len() as int].0 == scens[n].name@);
                    },
                }
            }
        }
        assert(p.known.subrange(0, known.len() as int) =~= known);
    }
}

/// A scenario phase over names the store already knows creates nothing and
/// leaves the store's scenarios as they are.
proof fn lemma_known_names_create_nothing(
    known: Seq<(Seq<char>, Seq<char>)>,
    scens: Seq<ManifestScenario>,
    ids: Seq<String>,
    times: Seq<i64>,
)
    requires
        forall|n: int| 0 <= n < scens.len() ==> knows_name(known, (#[trigger] scens[n]).name@),
    ensures
        scenario_phase(known, scens, ids, times).created == 0,
        scenario_phase(known, scens, ids, times).known == known,
    decreases scens.len(),
{
    if scens.len() > 0 {
        assert forall|n: int| 0 <= n < scens.drop_last().len() implies
            knows_name(known, (#[trigger] scens.drop_last()[n]).name@) by {
            assert(scens.drop_last()[n] == scens[n]);
        }
        lemma_known_names_create_nothing(known, scens.drop_last(), ids, times);
        let last = scens.len() - 1;
        assert(scens[last] == scens.last());
        assert(knows_name(known, scens[last].name@));
        let k = choose|k: int| 0 <= k < known.len() && #[trigger] known[k].0 == scens[last].name@;
        lemma_lookup_first_some(known, scens.last().name@, k);
    }
}

/// After the skill phase, the store knows the central path of every
/// manifest skill whose directory exists, and every path it knew before.
proof fn lemma_skill_paths_known(
    registered: Seq<Seq<char>>,
    skills: Seq<(Seq<char>, Seq<char>)>,
    mskills: Seq<ManifestSkill>,
    facts: Seq<SkillDirFacts>,
    name_ids: Seq<(Seq<char>, Seq<char>)>,
    ids: Seq<String>,
    times: Seq<i64>,
    base: int,
)
    requires
        facts.len() >= mskills.len(),
    ensures
        ({
            let p = skill_phase(registered, skills, mskills, facts, name_ids, ids, times, base);
            &&& forall|x: Seq<char>| registered.contains(x) ==> p.registered.contains(x)
            &&& forall|j: int| 0 <= j < mskills.len() && (#[trigger] facts[j]).exists ==>
                p.registered.contains(facts[j].central_path@)
        }),
    decreases mskills.len(),
{
    if mskills.len() > 0 {
        lemma_skill_paths_known(registered, skills, mskills.drop_last(), facts, name_ids, ids, times, base);
        let q = skill_phase(registered, skills, mskills.drop_last(), facts, name_ids, ids, times, base);
        let p = skill_phase(registered, skills, mskills, facts, name_ids, ids, times, base);
        let last = mskills.len() - 1;
        let f = facts[last];
        if f.exists && !q.registered.contains(f.central_path@) {
            assert forall|x: Seq<char>| q.registered.contains(x) implies p.registered.contains(x) by {
                let k = choose|k: int| 0 <= k < q.registered.len() && q.registered[k] == x;
                assert(p.registered[k] == x);
            }
            assert(p.registered[q.registered.len() as int] == f.central_path@);
        }
    }
}

/// A skill phase over directories whose paths the store already knows
/// imports nothing and leaves the known paths as they are.
proof fn lemma_known_paths_import_nothing(
    registered: Seq<Seq<char>>,
    skills: Seq<(Seq<char>, Seq<char>)>,
    mskills: Seq<ManifestSkill>,
    facts: Seq<SkillDirFacts>,
    name_ids: Seq<(Seq<char>, Seq<char>)>,
    ids: Seq<String>,
    times: Seq<i64>,
    base: int,
)
    requires
        facts.len() >= mskills.len(),
        forall|j: int| 0 <= j < mskills.len() && (#[trigger] facts[j]).exists ==>
            registered.contains(facts[j].central_path@),
    ensures
        skill_phase(registered, skills, mskills, facts, name_ids, ids, times, base).imported == 0,
        skill_phase(registered, skills, mskills, facts, name_ids, ids, times, base).registered == registered,
    decreases mskills.len(),
{
    if mskills.len() > 0 {
        lemma_known_paths_import_nothing(registered, skills, mskills.drop_last(), facts, name_ids, ids, times, base);
    }
}

/// Which manifest skills are counted missing depends only on their
/// directories, not on what the store holds.
proof fn lemma_missing_independent(
    r1: Seq<Seq<char>>,
    s1: Seq<(Seq<char>, Seq<char>)>,
    n1: Seq<(Seq<char>, Seq<char>)>,
    ids1: Seq<String>,
    times1: Seq<i64>,
    r2: Seq<Seq<char>>,
    s2: Seq<(Seq<char>, Seq<char>)>,
    n2: Seq<(Seq<char>, Seq<char>)>,
    ids2: Seq<String>,
    times2: Seq<i64>,
    mskills: Seq<ManifestSkill>,
    facts: Seq<SkillDirFacts>,
    base: int,
)
    ensures
        skill_phase(r1, s1, mskills, facts, n1, ids1, times1, base).missing
            == skill_phase(r2, s2, mskills, facts, n2, ids2, times2, base).missing,
    decreases mskills.len(),
{
    if mskills.len() > 0 {
        lemma_missing_independent(r1, s1, n1, ids1, times1, r2, s2, n2, ids2, times2, mskills.drop_last(), facts, base);
    }
}

/// Importing a manifest a second time, into a store that still knows every
/// scenario name and every skill path it knew after the first import,
/// creates no scenario and imports no skill: every skill the first import
/// imported or skipped is now skipped, and the same skills are missing. This
/// holds whatever order the store lists its rows in and whatever
/// identifiers and times the second import draws.
pub proof fn lemma_reimport_adds_nothing(
    m: SkillsManifest,
    scenarios: Seq<ScenarioRecord>,
    skills: Seq<SkillRecord>,
    facts: Seq<SkillDirFacts>,
    ids: Seq<String>,
    times: Seq<i64>,
    scenarios_after: Seq<ScenarioRecord>,
    skills_after: Seq<SkillRecord>,
    ids2: Seq<String>,
    times2: Seq<i64>,
)
    requires
        facts.len() == m.skills@.len(),
        forall|name: Seq<char>| #[trigger] knows_name(import_scenarios(m, scenarios, ids, times).known, name)
            ==> knows_name(scenario_keys(scenarios_after), name),
        forall|p: Seq<char>| #[trigger] import_skills(m, scenarios, skills, facts, ids, times).registered.contains(p)
            ==> skill_paths(skills_after).contains(p),
    ensures
        import_scenarios(m, scenarios_after, ids2, times2).created == 0,
        import_skills(m, scenarios_after, skills_after, facts, ids2, times2).imported == 0,
        import_skills(m, scenarios_after, skills_after, facts, ids2, times2).skipped
            == import_skills(m, scenarios, skills, facts, ids, times).imported
            + import_skills(m, scenarios, skills, facts, ids, times).skipped,
        import_skills(m, scenarios_after, skills_after, facts, ids2, times2).missing
            == import_skills(m, scenarios, skills, facts, ids, times).missing,
{
    let sp = import_scenarios(m, scenarios, ids, times);
    let sp2 = import_scenarios(m, scenarios_after, ids2, times2);
    let kp = import_skills(m, scenarios, skills, facts, ids, times);
    let base = m.scenarios@.len() as int;
    lemma_scenario_names_known(scenario_keys(scenarios), m.scenarios@, ids, times);
    assert forall|n: int| 0 <= n < m.scenarios@.len() implies
        knows_name(scenario_keys(scenarios_after), (#[trigger] m.scenarios@[n]).name@) by {
        assert(knows_name(sp.known, m.scenarios@[n].name@));
    }
    lemma_known_names_create_nothing(scenario_keys(scenarios_after), m.scenarios@, ids2, times2);
    lemma_skill_paths_known(skill_paths(skills), skill_keys(skills), m.skills@, facts, sp.name_ids, ids, times, base);
    assert forall|j: int| 0 <= j < m.skills@.len() && (#[trigger] facts[j]).exists implies
        skill_paths(skills_after).contains(facts[j].central_path@) by {
        assert(kp.registered.contains(facts[j].central_path@));
    }
    lemma_known_paths_import_nothing(
        skill_paths(skills_after),
        skill_keys(skills_after),
        m.skills@,
        facts,
        sp2.name_ids,
        ids2,
        times2,
        base,
    );
    lemma_missing_independent(
        skill_paths(skills), skill_keys(skills), sp.name_ids, ids, times,
        skill_paths(skills_after), skill_keys(skills_after), sp2.name_ids, ids2, times2,
        m.skills@, facts, base,
    );
    lemma_every_skill_counted(skill_paths(skills), skill_keys(skills), m.skills@, facts, sp.name_ids, ids, times, base);
    lemma_every_skill_counted(
        skill_paths(skills_after), skill_keys(skills_after), m.skills@, facts, sp2.name_ids, ids2, times2, base,
    );
}

/// Importing a manifest back into the store it was exported from, when each
/// skill's directory is the central path the store records for it, creates
/// no scenario and imports no skill.
pub proof fn lemma_export_import_round_trip(
    snap: ExportSnapshot,
    exported_at: Seq<char>,
    m: SkillsManifest,
    scenarios: Seq<ScenarioRecord>,
    skills: Seq<SkillRecord>,
    facts: Seq<SkillDirFacts>,
    ids: Seq<String>,
    times: Seq<i64>,
)
    requires
        is_export_of(m, snap, exported_at),
        scenarios == snap.scenarios@.map_values(|s: ExportScenario| s.record),
        skills == snap.skills@.map_values(|s: ExportSkill| s.record),
        facts.len() == m.skills@.len(),
        forall|j: int| 0 <= j < facts.len() && (#[trigger] facts[j]).exists ==>
            facts[j].central_path@ == snap.skills@[j].record.central_path@,
    ensures
        import_scenarios(m, scenarios, ids, times).created == 0,
        import_skills(m, scenarios, skills, facts, ids, times).imported == 0,
{
    let known = scenario_keys(scenarios);
    let sc = m.scenarios@;
    assert(scenarios.len() == snap.scenarios@.len());
    assert(known.len() == scenarios.len());
    assert forall|n: int| 0 <= n < sc.len() implies knows_name(known, (#[trigger] sc[n]).name@) by {
        assert(exports_scenario(m.scenarios@[n], snap.scenarios@[n], snap));
        assert(scenarios[n] == snap.scenarios@[n].record);
        assert(known[n] == (scenarios[n].name@, scenarios[n].id@));
        assert(known[n].0 == sc[n].name@);
    }
    lemma_known_names_create_nothing(known, sc, ids, times);
    let paths = skill_paths(skills);
    assert forall|j: int| 0 <= j < m.skills@.len() && (#[trigger] facts[j]).exists implies
        paths.contains(facts[j].central_path@) by {
        assert(skills.len() == snap.skills@.len());
        assert(skills[j] == snap.skills@[j].record);
        assert(paths.len() == skills.len());
        assert(paths[j] == facts[j].central_path@);
    }
    lemma_known_paths_import_nothing(
        paths,
        skill_keys(skills),
        m.skills@,
        facts,
        import_scenarios(m, scenarios, ids, times).name_ids,
        ids,
        times,
        m.scenarios@.len() as int,
    );
}

/// The scenario names of a manifest are pairwise distinct.
pub open spec fn distinct_scenario_names(scens: Seq<ManifestScenario>) -> bool {
    forall|a: int, b: int| 0 <= a < scens.len() && 0 <= b < scens.len() && a != b
        ==> (#[trigger] scens[a]).name@ != (#[trigger] scens[b]).name@
}

/// (name, id) of the scenarios created for the first `n` manifest scenarios.
pub open spec fn created_keys(scens: Seq<ManifestScenario>, ids: Seq<String>) -> Seq<(Seq<char>, Seq<char>)> {
    Seq::new(scens.len(), |n: int| (scens[n].name@, ids[n]@))
}

proof fn lemma_scenarios_into_empty_store(scens: Seq<ManifestScenario>, ids: Seq<String>, times: Seq<i64>)
    requires
        distinct_scenario_names(scens),
    ensures
        ({
            let p = scenario_phase(Seq::empty(), scens, ids, times);
            &&& p.created == scens.len()
            &&& p.known == created_keys(scens, ids)
            &&& p.name_ids == created_keys(scens, ids)
            &&& p.ops == Seq::new(scens.len(), |n: int| ImportOpView::InsertScenario(new_scenario_record(scens[n], ids[n]@, times[n])))
        }),
    decreases scens.len(),
{
    if scens.len() > 0 {
        let d = scens.drop_last();
        assert forall|a: int, b: int| 0 <= a < d.len() && 0 <= b < d.len() && a != b
            implies (#[trigger] d[a]).name@ != (#[trigger] d[b]).name@ by {
            assert(d[a] == scens[a] && d[b] == scens[b]);
        }
        lemma_scenarios_into_empty_store(d, ids, times);
        let q = scenario_phase(Seq::empty(), d, ids, times);
        let last = scens.len() - 1;
        assert forall|j: int| 0 <= j < q.known.len() implies q.known[j].0 != scens.last().name@ by {
            assert(q.known[j].0 == scens[j].name@);
            assert(scens[last] == scens.last());
        }
        lemma_lookup_last_none(q.known, scens.last().name@);
        let p = scenario_phase(Seq::empty(), scens, ids, times);
        assert(p.known =~= created_keys(scens, ids));
        assert(p.name_ids =~= created_keys(scens, ids));
        assert(p.ops =~= Seq::new(scens.len(), |n: int| ImportOpView::InsertScenario(new_scenario_record(scens[n], ids[n]@, times[n]))));
    }
}

/// The directories of the first `len` manifest skills exist and are pairwise distinct.
pub open spec fn distinct_existing_dirs(facts: Seq<SkillDirFacts>, len: int) -> bool {
    &&& forall|j: int| 0 <= j < len ==> (#[trigger] facts[j]).exists
    &&& forall|a: int, b: int| 0 <= a < len && 0 <= b < len && a != b
        ==> (#[trigger] facts[a]).central_path@ != (#[trigger] facts[b]).central_path@
}

proof fn lemma_skills_into_empty_store(
    mskills: Seq<ManifestSkill>,
    facts: Seq<SkillDirFacts>,
    name_ids: Seq<(Seq<char>, Seq<char>)>,
    ids: Seq<String>,
    times: Seq<i64>,
    base: int,
)
    requires
        facts.len() >= mskills.len(),
        distinct_existing_dirs(facts, mskills.len() as int),
    ensures
        ({
            let p = skill_phase(Seq::empty(), Seq::empty(), mskills, facts, name_ids, ids, times, base);
            &&& p.imported == mskills.len()
            &&& p.skipped == 0
            &&& p.missing == 0
            &&& p.registered == Seq::new(mskills.len(), |j: int| facts[j].central_path@)
            &&& forall|j: int, k: int| 0 <= j < mskills.len()
                && 0 <= k < skill_ops(mskills[j], facts[j], ids[base + j]@, times[base + j], name_ids).len()
                ==> p.ops.contains(#[trigger] skill_ops(mskills[j], facts[j], ids[base + j]@, times[base + j], name_ids)[k])
        }),
    decreases mskills.len(),
{
    if mskills.len() > 0 {
        let d = mskills.drop_last();
        lemma_skills_into_empty_store(d, facts, name_ids, ids, times, base);
        let q = skill_phase(Seq::empty(), Seq::empty(), d, facts, name_ids, ids, times, base);
        let p = skill_phase(Seq::empty(), Seq::empty(), mskills, facts, name_ids, ids, times, base);
        let last = mskills.len() - 1;
        let f = facts[last];
        assert(f.exists);
        assert(!q.registered.contains(f.central_path@)) by {
            if q.registered.contains(f.central_path@) {
                let k = choose|k: int| 0 <= k < q.registered.len() && q.registered[k] == f.central_path@;
                assert(q.registered[k] == facts[k].central_path@);
            }
        }
        assert(p.registered =~= Seq::new(mskills.len(), |j: int| facts[j].central_path@));
        let ops_last = skill_ops(mskills.last(), f, ids[base + last]@, times[base + last], name_ids);
        assert(p.ops == q.ops + ops_last);
        assert forall|j: int, k: int| 0 <= j < mskills.len()
            && 0 <= k < skill_ops(mskills[j], facts[j], ids[base + j]@, times[base + j], name_ids).len()
            implies p.ops.contains(#[trigger] skill_ops(mskills[j], facts[j], ids[base + j]@, times[base + j], name_ids)[k]) by {
            let x = skill_ops(mskills[j], facts[j], ids[base + j]@, times[base + j], name_ids)[k];
            if j < last {
                assert(d[j] == mskills[j]);
                assert(q.ops.contains(skill_ops(d[j], facts[j], ids[base + j]@, times[base + j], name_ids)[k]));
                let i = choose|i: int| 0 <= i < q.ops.len() && q.ops[i] == x;
                assert(p.ops[i] == x);
            } else {
                assert(mskills[j] == mskills.last());
                assert(p.ops[q.ops.len() + k] == x);
            }
        }
    }
}

proof fn lemma_lookup_last_found<V>(s: Seq<(Seq<char>, V)>, k: Seq<char>)
    requires
        lookup_last(s, k) is Some,
    ensures
        exists|i: int| 0 <= i < s.len() && s[i] == (k, lookup_last(s, k).unwrap()),
    decreases s.len(),
{
    if s.last().0 != k {
        lemma_lookup_last_found(s.drop_last(), k);
        let i = choose|i: int| 0 <= i < s.drop_last().len() && s.drop_last()[i] == (k, lookup_last(s.drop_last(), k).unwrap());
        assert(s[i] == s.drop_last()[i]);
    } else {
        assert(s[s.len() - 1] == s.last());
    }
}

proof fn lemma_names_from_table(ids: Seq<Seq<char>>, table: Seq<(Seq<char>, Seq<char>)>, t: int)
    requires
        0 <= t < names_for_ids(ids, table).len(),
    ensures
        exists|k: int| 0 <= k < table.len() && table[k].1 == names_for_ids(ids, table)[t],
    decreases ids.len(),
{
    let rest = names_for_ids(ids.drop_last(), table);
    if t < rest.len() {
        lemma_names_from_table(ids.drop_last(), table, t);
        match lookup_last(table, ids.last()) {
            Some(n) => assert(names_for_ids(ids, table)[t] == rest[t]),
            None => {},
        }
    } else {
        lemma_lookup_last_found(table, ids.last());
    }
}

proof fn lemma_membership_contains(names: Seq<Seq<char>>, name_ids: Seq<(Seq<char>, Seq<char>)>, skill_id: Seq<char>, t: int)
    requires
        0 <= t < names.len(),
        lookup_last(name_ids, names[t]) is Some,
    ensures
        membership_ops(names, name_ids, skill_id).contains(
            ImportOpView::AddSkillToScenario(lookup_last(name_ids, names[t]).unwrap(), skill_id),
        ),
    decreases names.len(),
{
    let rest = membership_ops(names.drop_last(), name_ids, skill_id);
    let x = ImportOpView::AddSkillToScenario(lookup_last(name_ids, names[t]).unwrap(), skill_id);
    if t < names.len() - 1 {
        assert(names.drop_last()[t] == names[t]);
        lemma_membership_contains(names.drop_last(), name_ids, skill_id, t);
        let i = choose|i: int| 0 <= i < rest.len() && rest[i] == x;
        match lookup_last(name_ids, names.last()) {
            Some(sid) => assert(membership_ops(names, name_ids, skill_id)[i] == x),
            None => {},
        }
    } else {
        assert(names.last() == names[t]);
        assert(membership_ops(names, name_ids, skill_id)[rest.len() as int] == x);
    }
}

proof fn lemma_created_lookup(scens: Seq<ManifestScenario>, ids: Seq<String>, n: int)
    requires
        distinct_scenario_names(scens),
        0 <= n < scens.len(),
    ensures
        lookup_last(created_keys(scens, ids), scens[n].name@) == Some(ids[n]@),
{
    let ck = created_keys(scens, ids);
    assert forall|j: int| n < j < ck.len() implies ck[j].0 != scens[n].name@ by {
        assert(ck[j].0 == scens[j].name@);
    }
    lemma_lookup_last_at(ck, scens[n].name@, n);
}

proof fn lemma_concat_contains(a: Seq<ImportOpView>, b: Seq<ImportOpView>, x: ImportOpView)
    requires
        a.contains(x) || b.contains(x),
    ensures
        (a + b).contains(x),
{
    if a.contains(x) {
        let i = choose|i: int| 0 <= i < a.len() && a[i] == x;
        assert((a + b)[i] == x);
    } else {
        let i = choose|i: int| 0 <= i < b.len() && b[i] == x;
        assert((a + b)[a.len() + i] == x);
    }
}

/// A created skill record carries the stored skill's own fields.
pub open spec fn carries_skill(r: SkillRecordView, s: SkillRecord) -> bool {
    &&& r.name == s.name@
    &&& r.description == opt_view(s.description)
    &&& r.source_type == s.source_type@
    &&& r.source_ref == opt_view(s.source_ref)
    &&& r.source_ref_resolved == opt_view(s.source_ref_resolved)
    &&& r.source_subpath == opt_view(s.source_subpath)
    &&& r.source_branch == opt_view(s.source_branch)
    &&& r.source_revision == opt_view(s.source_revision)
    &&& r.remote_revision == opt_view(s.remote_revision)
    &&& r.enabled == s.enabled
}

/// A created scenario record carries the stored scenario's own fields.
pub open spec fn carries_scenario(r: ScenarioRecordView, s: ScenarioRecord) -> bool {
    &&& r.name == s.name@
    &&& r.description == opt_view(s.description)
    &&& r.icon == opt_view(s.icon)
    &&& r.sort_order == s.sort_order
}

/// Importing the manifest of one store into an empty store, when every
/// skill's directory exists, the directories are distinct and so are the
/// scenario names, creates every scenario and imports every skill: each
/// created record carries the exported fields, each skill gets its tags and
/// joins every scenario it belonged to (by name), and the scenario of the
/// exported active name becomes active.
pub proof fn lemma_export_import_into_empty_store(
    snap: ExportSnapshot,
    exported_at: Seq<char>,
    m: SkillsManifest,
    facts: Seq<SkillDirFacts>,
    ids: Seq<String>,
    times: Seq<i64>,
)
    requires
        is_export_of(m, snap, exported_at),
        facts.len() == m.skills@.len(),
        distinct_existing_dirs(facts, m.skills@.len() as int),
        forall|a: int, b: int| 0 <= a < snap.scenarios@.len() && 0 <= b < snap.scenarios@.len() && a != b
            ==> (#[trigger] snap.scenarios@[a]).record.name@ != (#[trigger] snap.scenarios@[b]).record.name@,
    ensures
        ({
            let no_scenarios = Seq::<ScenarioRecord>::empty();
            let no_skills = Seq::<SkillRecord>::empty();
            let s_count = m.scenarios@.len() as int;
            let ops = import_ops(m, no_scenarios, no_skills, facts, ids, times);
            let kp = import_skills(m, no_scenarios, no_skills, facts, ids, times);
            &&& import_scenarios(m, no_scenarios, ids, times).created == snap.scenarios@.len()
            &&& kp.imported == snap.skills@.len()
            &&& kp.skipped == 0
            &&& kp.missing == 0
            &&& forall|n: int| #![trigger m.scenarios@[n]] 0 <= n < s_count ==> {
                let r = new_scenario_record(m.scenarios@[n], ids[n]@, times[n]);
                &&& ops.contains(ImportOpView::InsertScenario(r))
                &&& carries_scenario(r, snap.scenarios@[n].record)
            }
            &&& forall|j: int| #![trigger m.skills@[j]] 0 <= j < m.skills@.len() ==> {
                let id = ids[s_count + j]@;
                let r = new_skill_record(m.skills@[j], facts[j], id, times[s_count + j]);
                let tags = tags_of(snap, snap.skills@[j].record.id@);
                &&& ops.contains(ImportOpView::InsertSkill(r))
                &&& carries_skill(r, snap.skills@[j].record)
                &&& tags.len() > 0 ==> ops.contains(ImportOpView::SetTags(id, tags))
                &&& forall|t: int| 0 <= t < m.skills@[j].scenarios@.len() ==> exists|n: int|
                    0 <= n < s_count && m.scenarios@[n].name@ == (#[trigger] m.skills@[j].scenarios@[t])@
                    && ops.contains(ImportOpView::AddSkillToScenario(ids[n]@, id))
            }
            &&& match active_name(snap) {
                Some(name) => exists|n: int| 0 <= n < s_count && (#[trigger] m.scenarios@[n]).name@ == name
                    && ops.contains(ImportOpView::SetActiveScenario(ids[n]@)),
                None => active_ops(m, import_scenarios(m, no_scenarios, ids, times).name_ids) == Seq::<ImportOpView>::empty(),
            }
        }),
{
    let no_scenarios = Seq::<ScenarioRecord>::empty();
    let no_skills = Seq::<SkillRecord>::empty();
    let scens = m.scenarios@;
    let s_count = scens.len() as int;
    assert(scenario_keys(no_scenarios) =~= Seq::<(Seq<char>, Seq<char>)>::empty());
    assert(skill_paths(no_skills) =~= Seq::<Seq<char>>::empty());
    assert(skill_keys(no_skills) =~= Seq::<(Seq<char>, Seq<char>)>::empty());
    // The manifest's scenarios are the store's, so their names are distinct.
    assert forall|n: int| 0 <= n < s_count implies
        (#[trigger] scens[n]).name@ == snap.scenarios@[n].record.name@
        && carries_scenario(new_scenario_record(scens[n], ids[n]@, times[n]), snap.scenarios@[n].record) by {
        assert(exports_scenario(m.scenarios@[n], snap.scenarios@[n], snap));
    }
    assert forall|a: int, b: int| 0 <= a < scens.len() && 0 <= b < scens.len() && a != b
        implies (#[trigger] scens[a]).name@ != (#[trigger] scens[b]).name@ by {
        assert(scens[a].name@ == snap.scenarios@[a].record.name@);
        assert(scens[b].name@ == snap.scenarios@[b].record.name@);
    }
    lemma_scenarios_into_empty_store(scens, ids, times);
    let sp = import_scenarios(m, no_scenarios, ids, times);
    let ni = sp.name_ids;
    lemma_skills_into_empty_store(m.skills@, facts, ni, ids, times, s_count);
    let kp = import_skills(m, no_scenarios, no_skills, facts, ids, times);
    let settings = setting_ops(m.settings@);
    let togg = toggle_ops(scens, ni, kp.skills);
    let act = active_ops(m, ni);
    let ops = import_ops(m, no_scenarios, no_skills, facts, ids, times);
    assert(ops == settings + sp.ops + kp.ops + togg + act);
    // Scenarios.
    assert forall|n: int| #![trigger scens[n]] 0 <= n < s_count implies ops.contains(ImportOpView::InsertScenario(new_scenario_record(scens[n], ids[n]@, times[n]))) by {
        let x = ImportOpView::InsertScenario(new_scenario_record(scens[n], ids[n]@, times[n]));
        assert(sp.ops[n] == x);
        lemma_concat_contains(settings, sp.ops, x);
        lemma_concat_contains(settings + sp.ops, kp.ops, x);
        lemma_concat_contains(settings + sp.ops + kp.ops, togg, x);
        lemma_concat_contains(settings + sp.ops + kp.ops + togg, act, x);
    }
    // Skills.
    assert forall|j: int| #![trigger m.skills@[j]] 0 <= j < m.skills@.len() implies {
        let id = ids[s_count + j]@;
        let r = new_skill_record(m.skills@[j], facts[j], id, times[s_count + j]);
        let tags = tags_of(snap, snap.skills@[j].record.id@);
        &&& ops.contains(ImportOpView::InsertSkill(r))
        &&& carries_skill(r, snap.skills@[j].record)
        &&& tags.len() > 0 ==> ops.contains(ImportOpView::SetTags(id, tags))
        &&& forall|t: int| 0 <= t < m.skills@[j].scenarios@.len() ==> exists|n: int|
            0 <= n < s_count && m.scenarios@[n].name@ == (#[trigger] m.skills@[j].scenarios@[t])@
            && ops.contains(ImportOpView::AddSkillToScenario(ids[n]@, id))
    } by {
        let ms = m.skills@[j];
        let id = ids[s_count + j]@;
        let now = times[s_count + j];
        let so = skill_ops(ms, facts[j], id, now, ni);
        assert(exports_skill(ms, snap.skills@[j], snap));
        let tag_part = if ms.tags@.len() > 0 {
            seq![ImportOpView::SetTags(id, strs_view(ms.tags@))]
        } else {
            Seq::empty()
        };
        let mem = membership_ops(strs_view(ms.scenarios@), ni, id);
        assert(so == seq![ImportOpView::InsertSkill(new_skill_record(ms, facts[j], id, now))] + tag_part + mem);
        // Every element of this skill's changes is among the import's changes.
        assert forall|k: int| 0 <= k < so.len() implies ops.contains(#[trigger] so[k]) by {
            assert(kp.ops.contains(skill_ops(m.skills@[j], facts[j], ids[s_count + j]@, times[s_count + j], ni)[k]));
            lemma_concat_contains(settings + sp.ops, kp.ops, so[k]);
            lemma_concat_contains(settings + sp.ops + kp.ops, togg, so[k]);
            lemma_concat_contains(settings + sp.ops + kp.ops + togg, act, so[k]);
        }
        assert(so[0] == ImportOpView::InsertSkill(new_skill_record(ms, facts[j], id, now)));
        assert(strs_view(ms.tags@).len() == ms.tags@.len());
        if ms.tags@.len() > 0 {
            assert(so[1] == ImportOpView::SetTags(id, strs_view(ms.tags@)));
        }
        assert forall|t: int| 0 <= t < ms.scenarios@.len() implies exists|n: int|
            0 <= n < s_count && m.scenarios@[n].name@ == (#[trigger] ms.scenarios@[t])@
            && ops.contains(ImportOpView::AddSkillToScenario(ids[n]@, id)) by {
            let names = strs_view(ms.scenarios@);
            assert(names[t] == ms.scenarios@[t]@);
            lemma_names_from_table(strs_view(snap.skills@[j].scenario_ids@), scenario_names(snap), t);
            let k = choose|k: int| 0 <= k < scenario_names(snap).len() && scenario_names(snap)[k].1 == names[t];
            assert(scenario_names(snap)[k].1 == snap.scenarios@[k].record.name@);
            assert(scens[k].name@ == names[t]);
            lemma_created_lookup(scens, ids, k);
            lemma_membership_contains(names, ni, id, t);
            let x = ImportOpView::AddSkillToScenario(ids[k]@, id);
            let i = choose|i: int| 0 <= i < mem.len() && mem[i] == x;
            assert(so[1 + tag_part.len() + i] == x);
        }
    }
    // Active scenario.
    match active_name(snap) {
        Some(name) => {
            let aid = snap.active_scenario_id.unwrap()@;
            lemma_lookup_last_found(scenario_names(snap), aid);
            let k = choose|k: int| 0 <= k < scenario_names(snap).len() && scenario_names(snap)[k] == (aid, name);
            assert(scens[k].name@ == name);
            lemma_created_lookup(scens, ids, k);
            assert(act == seq![ImportOpView::SetActiveScenario(ids[k]@)]);
            lemma_concat_contains(settings + sp.ops + kp.ops + togg, act, act[0]);
        },
        None => {},
    }
}

/// The update status of an imported skill: for a git or skills.sh source
/// with both a recorded and a remote revision, "update_available" exactly
/// when the two differ and "up_to_date" exactly when they are equal, for
/// either source type; "up_to_date" with no remote revision; "unknown" with
/// no recorded revision; "local_only" for any other source type.
pub proof fn lemma_update_status_rule(
    source_type: Seq<char>,
    source_revision: Option<Seq<char>>,
    remote_revision: Option<Seq<char>>,
)
    ensures
        ({
            let st = update_status_text(source_type, source_revision, remote_revision);
            let tracked_source = source_type == "git"@ || source_type == "skillssh"@;
            &&& tracked_source && source_revision is Some && remote_revision is Some ==> {
                &&& st == "update_available"@ <==> source_revision.unwrap() != remote_revision.unwrap()
                &&& st == "up_to_date"@ <==> source_revision.unwrap() == remote_revision.unwrap()
            }
            &&& tracked_source && source_revision is Some && remote_revision is None ==> st == "up_to_date"@
            &&& tracked_source && source_revision is None ==> st == "unknown"@
            &&& !tracked_source ==> st == "local_only"@
        }),
{
    reveal_strlit("update_available");
    reveal_strlit("up_to_date");
    assert("update_available"@.len() != "up_to_date"@.len());
}


proof fn lemma_entry_toggles_contain(
    entries: Seq<(String, Vec<(String, bool)>)>,
    sid: Seq<char>,
    skills: Seq<(Seq<char>, Seq<char>)>,
    e: int,
    k: int,
)
    requires
        0 <= e < entries.len(),
        lookup_first(skills, entries[e].0@) is Some,
        0 <= k < entries[e].1@.len(),
    ensures
        entry_toggle_ops(entries, sid, skills).contains(ImportOpView::SetToolToggle(
            sid,
            lookup_first(skills, entries[e].0@).unwrap(),
            entries[e].1@[k].0@,
            entries[e].1@[k].1,
        )),
    decreases entries.len(),
{
    let kid = lookup_first(skills, entries[e].0@).unwrap();
    let x = ImportOpView::SetToolToggle(sid, kid, entries[e].1@[k].0@, entries[e].1@[k].1);
    let rest = entry_toggle_ops(entries.drop_last(), sid, skills);
    if e < entries.len() - 1 {
        assert(entries.drop_last()[e] == entries[e]);
        lemma_entry_toggles_contain(entries.drop_last(), sid, skills, e, k);
        match lookup_first(skills, entries.last().0@) {
            Some(kid2) => lemma_concat_contains(rest, flag_ops(flags_view(entries.last().1@), sid, kid2), x),
            None => {},
        }
    } else {
        assert(entries.last() == entries[e]);
        let fo = flag_ops(flags_view(entries[e].1@), sid, kid);
        assert(flags_view(entries[e].1@)[k] == (entries[e].1@[k].0@, entries[e].1@[k].1));
        assert(fo[k] == x);
        lemma_concat_contains(rest, fo, x);
    }
}

proof fn lemma_toggles_contain(
    scens: Seq<ManifestScenario>,
    name_ids: Seq<(Seq<char>, Seq<char>)>,
    skills: Seq<(Seq<char>, Seq<char>)>,
    n: int,
    e: int,
    k: int,
)
    requires
        0 <= n < scens.len(),
        lookup_last(name_ids, scens[n].name@) is Some,
        0 <= e < scens[n].skill_tool_toggles@.len(),
        lookup_first(skills, scens[n].skill_tool_toggles@[e].0@) is Some,
        0 <= k < scens[n].skill_tool_toggles@[e].1@.len(),
    ensures
        toggle_ops(scens, name_ids, skills).contains(ImportOpView::SetToolToggle(
            lookup_last(name_ids, scens[n].name@).unwrap(),
            lookup_first(skills, scens[n].skill_tool_toggles@[e].0@).unwrap(),
            scens[n].skill_tool_toggles@[e].1@[k].0@,
            scens[n].skill_tool_toggles@[e].1@[k].1,
        )),
    decreases scens.len(),
{
    let entry = scens[n].skill_tool_toggles@[e];
    let x = ImportOpView::SetToolToggle(
        lookup_last(name_ids, scens[n].name@).unwrap(),
        lookup_first(skills, entry.0@).unwrap(),
        entry.1@[k].0@,
        entry.1@[k].1,
    );
    let rest = toggle_ops(scens.drop_last(), name_ids, skills);
    if n < scens.len() - 1 {
        assert(scens.drop_last()[n] == scens[n]);
        lemma_toggles_contain(scens.drop_last(), name_ids, skills, n, e, k);
        match lookup_last(name_ids, scens.last().name@) {
            Some(sid2) => lemma_concat_contains(rest, entry_toggle_ops(scens.last().skill_tool_toggles@, sid2, skills), x),
            None => {},
        }
    } else {
        assert(scens.last() == scens[n]);
        let sid = lookup_last(name_ids, scens[n].name@).unwrap();
        lemma_entry_toggles_contain(scens[n].skill_tool_toggles@, sid, skills, e, k);
        lemma_concat_contains(rest, entry_toggle_ops(scens[n].skill_tool_toggles@, sid, skills), x);
    }
}

proof fn lemma_entry_toggles_from_manifest(
    entries: Seq<(String, Vec<(String, bool)>)>,
    sid: Seq<char>,
    skills: Seq<(Seq<char>, Seq<char>)>,
    i: int,
)
    requires
        0 <= i < entry_toggle_ops(entries, sid, skills).len(),
    ensures
        exists|e: int, k: int| 0 <= e < entries.len() && 0 <= k < entries[e].1@.len()
            && lookup_first(skills, entries[e].0@) is Some
            && entry_toggle_ops(entries, sid, skills)[i] == ImportOpView::SetToolToggle(
                sid,
                lookup_first(skills, entries[e].0@).unwrap(),
                (#[trigger] entries[e].1@[k]).0@,
                entries[e].1@[k].1,
            ),
    decreases entries.len(),
{
    let rest = entry_toggle_ops(entries.drop_last(), sid, skills);
    let all = entry_toggle_ops(entries, sid, skills);
    if i < rest.len() {
        assert(all[i] == rest[i]);
        lemma_entry_toggles_from_manifest(entries.drop_last(), sid, skills, i);
        let (e, k) = choose|e: int, k: int| 0 <= e < entries.drop_last().len() && 0 <= k < entries.drop_last()[e].1@.len()
            && lookup_first(skills, entries.drop_last()[e].0@) is Some
            && rest[i] == ImportOpView::SetToolToggle(
                sid,
                lookup_first(skills, entries.drop_last()[e].0@).unwrap(),
                (#[trigger] entries.drop_last()[e].1@[k]).0@,
                entries.drop_last()[e].1@[k].1,
            );
        assert(entries.drop_last()[e] == entries[e]);
        assert(entries[e].1@[k] == entries.drop_last()[e].1@[k]);
    } else {
        let e = entries.len() - 1;
        assert(entries.last() == entries[e]);
        let kid = lookup_first(skills, entries[e].0@).unwrap();
        let fo = flag_ops(flags_view(entries[e].1@), sid, kid);
        let k = i - rest.len();
        assert(all == rest + fo);
        assert(all[i] == fo[k]);
        assert(flags_view(entries[e].1@)[k] == (entries[e].1@[k].0@, entries[e].1@[k].1));
        assert(entries[e].1@[k] == entries[e].1@[k]);
    }
}

/// Every tool toggle change that an import makes comes from a manifest
/// entry and carries that entry's enabled flag: it sets, in the scenario
/// that the entry's scenario name maps to and for the skill that the
/// entry's skill name maps to, the entry's tool to the entry's flag.
pub proof fn lemma_toggle_changes_from_manifest(
    scens: Seq<ManifestScenario>,
    name_ids: Seq<(Seq<char>, Seq<char>)>,
    skills: Seq<(Seq<char>, Seq<char>)>,
    i: int,
)
    requires
        0 <= i < toggle_ops(scens, name_ids, skills).len(),
    ensures
        exists|n: int, e: int, k: int| 0 <= n < scens.len() && 0 <= e < scens[n].skill_tool_toggles@.len()
            && 0 <= k < scens[n].skill_tool_toggles@[e].1@.len()
            && lookup_last(name_ids, scens[n].name@) is Some
            && lookup_first(skills, scens[n].skill_tool_toggles@[e].0@) is Some
            && toggle_ops(scens, name_ids, skills)[i] == ImportOpView::SetToolToggle(
                lookup_last(name_ids, scens[n].name@).unwrap(),
                lookup_first(skills, scens[n].skill_tool_toggles@[e].0@).unwrap(),
                (#[trigger] scens[n].skill_tool_toggles@[e].1@[k]).0@,
                scens[n].skill_tool_toggles@[e].1@[k].1,
            ),
    decreases scens.len(),
{
    let rest = toggle_ops(scens.drop_last(), name_ids, skills);
    let all = toggle_ops(scens, name_ids, skills);
    if i < rest.len() {
        assert(all[i] == rest[i]);
        lemma_toggle_changes_from_manifest(scens.drop_last(), name_ids, skills, i);
        let (n, e, k) = choose|n: int, e: int, k: int| 0 <= n < scens.drop_last().len()
            && 0 <= e < scens.drop_last()[n].skill_tool_toggles@.len()
            && 0 <= k < scens.drop_last()[n].skill_tool_toggles@[e].1@.len()
            && lookup_last(name_ids, scens.drop_last()[n].name@) is Some
            && lookup_first(skills, scens.drop_last()[n].skill_tool_toggles@[e].0@) is Some
            && rest[i] == ImportOpView::SetToolToggle(
                lookup_last(name_ids, scens.drop_last()[n].name@).unwrap(),
                lookup_first(skills, scens.drop_last()[n].skill_tool_toggles@[e].0@).unwrap(),
                (#[trigger] scens.drop_last()[n].skill_tool_toggles@[e].1@[k]).0@,
                scens.drop_last()[n].skill_tool_toggles@[e].1@[k].1,
            );
        assert(scens.drop_last()[n] == scens[n]);
        assert(scens[n].skill_tool_toggles@[e].1@[k] == scens.drop_last()[n].skill_tool_toggles@[e].1@[k]);
    } else {
        let n = scens.len() - 1;
        assert(scens.last() == scens[n]);
        let sid = lookup_last(name_ids, scens[n].name@).unwrap();
        let entries = scens[n].skill_tool_toggles@;
        let et = entry_toggle_ops(entries, sid, skills);
        assert(all == rest + et);
        assert(all[i] == et[i - rest.len()]);
        lemma_entry_toggles_from_manifest(entries, sid, skills, i - rest.len());
        let (e, k) = choose|e: int, k: int| 0 <= e < entries.len() && 0 <= k < entries[e].1@.len()
            && lookup_first(skills, entries[e].0@) is Some
            && et[i - rest.len()] == ImportOpView::SetToolToggle(
                sid,
                lookup_first(skills, entries[e].0@).unwrap(),
                (#[trigger] entries[e].1@[k]).0@,
                entries[e].1@[k].1,
            );
        assert(scens[n].skill_tool_toggles@[e].1@[k] == entries[e].1@[k]);
    }
}

/// An import restores every tool toggle of the manifest with its own
/// enabled flag: for each (tool, enabled) entry of a manifest scenario whose
/// name maps to a scenario, on a skill whose name maps to a skill, the plan
/// sets that tool, in that scenario and for that skill, to that flag.
pub proof fn lemma_import_restores_toggles(
    plan: ImportPlan,
    m: SkillsManifest,
    scenarios: Seq<ScenarioRecord>,
    skills: Seq<SkillRecord>,
    facts: Seq<SkillDirFacts>,
    ids: Seq<String>,
    times: Seq<i64>,
    n: int,
    e: int,
    k: int,
)
    requires
        is_import_plan(plan, m, scenarios, skills, facts, ids, times),
        0 <= n < m.scenarios@.len(),
        0 <= e < m.scenarios@[n].skill_tool_toggles@.len(),
        0 <= k < m.scenarios@[n].skill_tool_toggles@[e].1@.len(),
        lookup_last(import_scenarios(m, scenarios, ids, times).name_ids, m.scenarios@[n].name@) is Some,
        lookup_first(
            import_skills(m, scenarios, skills, facts, ids, times).skills,
            m.scenarios@[n].skill_tool_toggles@[e].0@,
        ) is Some,
    ensures
        ops_view(plan.ops@).contains(ImportOpView::SetToolToggle(
            lookup_last(import_scenarios(m, scenarios, ids, times).name_ids, m.scenarios@[n].name@).unwrap(),
            lookup_first(
                import_skills(m, scenarios, skills, facts, ids, times).skills,
                m.scenarios@[n].skill_tool_toggles@[e].0@,
            ).unwrap(),
            m.scenarios@[n].skill_tool_toggles@[e].1@[k].0@,
            m.scenarios@[n].skill_tool_toggles@[e].1@[k].1,
        )),
{
    let sp = import_scenarios(m, scenarios, ids, times);
    let kp = import_skills(m, scenarios, skills, facts, ids, times);
    let entry = m.scenarios@[n].skill_tool_toggles@[e];
    let x = ImportOpView::SetToolToggle(
        lookup_last(sp.name_ids, m.scenarios@[n].name@).unwrap(),
        lookup_first(kp.skills, entry.0@).unwrap(),
        entry.1@[k].0@,
        entry.1@[k].1,
    );
    let head = setting_ops(m.settings@) + sp.ops + kp.ops;
    let togg = toggle_ops(m.scenarios@, sp.name_ids, kp.skills);
    lemma_toggles_contain(m.scenarios@, sp.name_ids, kp.skills, n, e, k);
    lemma_concat_contains(head, togg, x);
    lemma_concat_contains(head + togg, active_ops(m, sp.name_ids), x);
    assert(import_ops(m, scenarios, skills, facts, ids, times) == head + togg + active_ops(m, sp.name_ids));
}

} // verus!
