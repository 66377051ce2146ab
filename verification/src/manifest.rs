//! The portable skills manifest: building it from the store's contents, and
//! planning the store changes that importing it makes.
use vstd::prelude::*;
use crate::strings::{
    opt_view, strs_view, pairs_view, clone_opt, clone_strs, lookup_last, lookup_first,
    lemma_lookup_last_at, lemma_lookup_last_none, lemma_lookup_first_at, find_last_key,
};
use crate::records::{SkillRecord, ScenarioRecord, TargetRecord, ToolToggle};

verus! {

/// The manifest format version that this library writes and reads.
pub const MANIFEST_VERSION: u32 = 1;

/// The settings that travel with the manifest, in order.
pub open spec fn synced_keys() -> Seq<Seq<char>> {
    seq![
        "sync_mode"@,
        "disabled_tools"@,
        "custom_tools"@,
        "custom_tool_paths"@,
        "default_scenario"@,
        "update_check_ttl_minutes"@,
    ]
}

/// The keys of the settings that travel with the manifest, in order.
pub fn synced_settings_keys() -> (r: Vec<String>)
    ensures
        strs_view(r@) == synced_keys(),
{
    let mut r: Vec<String> = Vec::new();
    r.push(String::from_str("sync_mode"));
    r.push(String::from_str("disabled_tools"));
    r.push(String::from_str("custom_tools"));
    r.push(String::from_str("custom_tool_paths"));
    r.push(String::from_str("default_scenario"));
    r.push(String::from_str("update_check_ttl_minutes"));
    assert(strs_view(r@) =~= synced_keys());
    r
}

/// Whether a setting travels with the manifest.
pub fn is_synced_setting_key(key: &String) -> (r: bool)
    ensures
        r == synced_keys().contains(key@),
{
    let keys = synced_settings_keys();
    crate::strings::contains_str(&keys, key)
}

// ---------------------------------------------------------------------------
// The manifest
// ---------------------------------------------------------------------------

/// A skill as the manifest records it.
///
/// `tool_targets` lists (tool, mode) entries; read as a map, a later entry
/// for a tool replaces an earlier one.
#[derive(Clone, Debug)]
pub struct ManifestSkill {
    pub name: String,
    pub description: Option<String>,
    pub source_type: String,
    pub source_ref: Option<String>,
    pub source_ref_resolved: Option<String>,
    pub source_subpath: Option<String>,
    pub source_branch: Option<String>,
    pub source_revision: Option<String>,
    pub remote_revision: Option<String>,
    pub content_hash: Option<String>,
    pub enabled: bool,
    pub tags: Vec<String>,
    pub scenarios: Vec<String>,
    pub tool_targets: Vec<(String, String)>,
}

/// A scenario as the manifest records it.
///
/// `skill_tool_toggles` lists (skill name, (tool, enabled) entries) entries;
/// read as maps, a later entry for a key replaces an earlier one.
#[derive(Clone, Debug)]
pub struct ManifestScenario {
    pub name: String,
    pub description: Option<String>,
    pub icon: Option<String>,
    pub sort_order: i32,
    pub skill_tool_toggles: Vec<(String, Vec<(String, bool)>)>,
}

/// The manifest: skills, scenarios, synced settings and the active scenario.
///
/// `settings` lists (key, value) entries; read as a map, a later entry for a
/// key replaces an earlier one.
#[derive(Clone, Debug)]
pub struct SkillsManifest {
    pub version: u32,
    pub exported_at: String,
    pub settings: Vec<(String, String)>,
    pub skills: Vec<ManifestSkill>,
    pub scenarios: Vec<ManifestScenario>,
    pub active_scenario: Option<String>,
}

/// The views of a list of (tool, enabled) entries.
pub open spec fn flags_view(v: Seq<(String, bool)>) -> Seq<(Seq<char>, bool)> {
    v.map_values(|p: (String, bool)| (p.0@, p.1))
}

/// The views of a list of (skill name, tool entries) entries.
pub open spec fn toggles_view(v: Seq<(String, Vec<(String, bool)>)>) -> Seq<(Seq<char>, Seq<(Seq<char>, bool)>)> {
    v.map_values(|p: (String, Vec<(String, bool)>)| (p.0@, flags_view(p.1@)))
}

// ---------------------------------------------------------------------------
// Export
// ---------------------------------------------------------------------------

/// A stored skill, with the identifiers of the scenarios it belongs to.
pub struct ExportSkill {
    pub record: SkillRecord,
    pub scenario_ids: Vec<String>,
}

/// A skill of a scenario, with the tool toggles stored for it there.
pub struct ScenarioMember {
    pub skill_id: String,
    pub toggles: Vec<ToolToggle>,
}

/// A stored scenario, with its skills in stored order.
pub struct ExportScenario {
    pub record: ScenarioRecord,
    pub members: Vec<ScenarioMember>,
}

/// What the store holds that goes into a manifest.
pub struct ExportSnapshot {
    /// All skills, in stored order.
    pub skills: Vec<ExportSkill>,
    /// All tool targets.
    pub targets: Vec<TargetRecord>,
    /// (skill id, tags) entries; a later entry for an id replaces an earlier one.
    pub tags: Vec<(String, Vec<String>)>,
    /// All scenarios, in stored order.
    pub scenarios: Vec<ExportScenario>,
    /// The stored value of each setting that was asked for, if it has one.
    pub settings: Vec<(String, Option<String>)>,
    /// The active scenario's identifier, if one is set.
    pub active_scenario_id: Option<String>,
}

/// The views of the tag entries of a snapshot.
pub open spec fn tag_entries(v: Seq<(String, Vec<String>)>) -> Seq<(Seq<char>, Seq<Seq<char>>)> {
    v.map_values(|p: (String, Vec<String>)| (p.0@, strs_view(p.1@)))
}

/// (id, name) of each scenario of a snapshot.
pub open spec fn scenario_names(snap: ExportSnapshot) -> Seq<(Seq<char>, Seq<char>)> {
    snap.scenarios@.map_values(|s: ExportScenario| (s.record.id@, s.record.name@))
}

/// (id, name) of each skill of a snapshot.
pub open spec fn skill_names(snap: ExportSnapshot) -> Seq<(Seq<char>, Seq<char>)> {
    snap.skills@.map_values(|s: ExportSkill| (s.record.id@, s.record.name@))
}

/// The settings that go into a manifest: each synced setting whose stored
/// value is present and not empty, in the order asked.
pub open spec fn exported_settings(s: Seq<(String, Option<String>)>) -> Seq<(Seq<char>, Seq<char>)>
    decreases s.len(),
{
    if s.len() == 0 {
        Seq::empty()
    } else {
        let rest = exported_settings(s.drop_last());
        let (k, v) = s.last();
        match v {
            Some(value) => if synced_keys().contains(k@) && value@.len() > 0 {
                rest.push((k@, value@))
            } else {
                rest
            },
            None => rest,
        }
    }
}

/// The names of the scenarios with the given identifiers, skipping unknown ones.
pub open spec fn names_for_ids(ids: Seq<Seq<char>>, table: Seq<(Seq<char>, Seq<char>)>) -> Seq<Seq<char>>
    decreases ids.len(),
{
    if ids.len() == 0 {
        Seq::empty()
    } else {
        let rest = names_for_ids(ids.drop_last(), table);
        match lookup_last(table, ids.last()) {
            Some(n) => rest.push(n),
            None => rest,
        }
    }
}

/// The (tool, mode) entries of the targets of skill `id`, in stored order.
pub open spec fn targets_for(targets: Seq<TargetRecord>, id: Seq<char>) -> Seq<(Seq<char>, Seq<char>)>
    decreases targets.len(),
{
    if targets.len() == 0 {
        Seq::empty()
    } else {
        let rest = targets_for(targets.drop_last(), id);
        let t = targets.last();
        if t.skill_id@ == id {
            rest.push((t.tool@, t.mode@))
        } else {
            rest
        }
    }
}

/// The (tool, enabled) entries of stored toggles.
pub open spec fn stored_flags(t: Seq<ToolToggle>) -> Seq<(Seq<char>, bool)> {
    t.map_values(|x: ToolToggle| (x.tool@, x.enabled))
}

/// The toggle entries of a scenario: for each member whose skill is known
/// (by the first skill with its id) and that has toggles, the skill's name
/// and its toggles.
pub open spec fn member_toggles(members: Seq<ScenarioMember>, skills: Seq<(Seq<char>, Seq<char>)>) -> Seq<(Seq<char>, Seq<(Seq<char>, bool)>)>
    decreases members.len(),
{
    if members.len() == 0 {
        Seq::empty()
    } else {
        let rest = member_toggles(members.drop_last(), skills);
        let m = members.last();
        match lookup_first(skills, m.skill_id@) {
            Some(name) => if m.toggles@.len() > 0 {
                rest.push((name, stored_flags(m.toggles@)))
            } else {
                rest
            },
            None => rest,
        }
    }
}

/// The tags of skill `id`: those of its last tag entry, or none.
pub open spec fn tags_of(snap: ExportSnapshot, id: Seq<char>) -> Seq<Seq<char>> {
    match lookup_last(tag_entries(snap.tags@), id) {
        Some(t) => t,
        None => Seq::empty(),
    }
}

/// `ms` is how the manifest of `snap` records the stored skill `s`.
pub open spec fn exports_skill(ms: ManifestSkill, s: ExportSkill, snap: ExportSnapshot) -> bool {
    let r = s.record;
    &&& ms.name@ == r.name@
    &&& opt_view(ms.description) == opt_view(r.description)
    &&& ms.source_type@ == r.source_type@
    &&& opt_view(ms.source_ref) == opt_view(r.source_ref)
    &&& opt_view(ms.source_ref_resolved) == opt_view(r.source_ref_resolved)
    &&& opt_view(ms.source_subpath) == opt_view(r.source_subpath)
    &&& opt_view(ms.source_branch) == opt_view(r.source_branch)
    &&& opt_view(ms.source_revision) == opt_view(r.source_revision)
    &&& opt_view(ms.remote_revision) == opt_view(r.remote_revision)
    &&& opt_view(ms.content_hash) == opt_view(r.content_hash)
    &&& ms.enabled == r.enabled
    &&& strs_view(ms.tags@) == tags_of(snap, r.id@)
    &&& strs_view(ms.scenarios@) == names_for_ids(strs_view(s.scenario_ids@), scenario_names(snap))
    &&& pairs_view(ms.tool_targets@) == targets_for(snap.targets@, r.id@)
}

/// `ms` is how the manifest of `snap` records the stored scenario `s`.
pub open spec fn exports_scenario(ms: ManifestScenario, s: ExportScenario, snap: ExportSnapshot) -> bool {
    &&& ms.name@ == s.record.name@
    &&& opt_view(ms.description) == opt_view(s.record.description)
    &&& opt_view(ms.icon) == opt_view(s.record.icon)
    &&& ms.sort_order == s.record.sort_order
    &&& toggles_view(ms.skill_tool_toggles@) == member_toggles(s.members@, skill_names(snap))
}

/// The name of the active scenario, when it is set and known.
pub open spec fn active_name(snap: ExportSnapshot) -> Option<Seq<char>> {
    match snap.active_scenario_id {
        Some(id) => lookup_last(scenario_names(snap), id@),
        None => None,
    }
}

/// `m` is the manifest of `snap`, stamped `exported_at`.
pub open spec fn is_export_of(m: SkillsManifest, snap: ExportSnapshot, exported_at: Seq<char>) -> bool {
    &&& m.version == MANIFEST_VERSION
    &&& m.exported_at@ == exported_at
    &&& pairs_view(m.settings@) == exported_settings(snap.settings@)
    &&& m.skills@.len() == snap.skills@.len()
    &&& forall|i: int| 0 <= i < m.skills@.len() ==> exports_skill(#[trigger] m.skills@[i], snap.skills@[i], snap)
    &&& m.scenarios@.len() == snap.scenarios@.len()
    &&& forall|i: int| 0 <= i < m.scenarios@.len() ==> exports_scenario(#[trigger] m.scenarios@[i], snap.scenarios@[i], snap)
    &&& opt_view(m.active_scenario) == active_name(snap)
}

fn export_settings(s: &Vec<(String, Option<String>)>) -> (r: Vec<(String, String)>)
    ensures
        pairs_view(r@) == exported_settings(s@),
{
    let mut r: Vec<(String, String)> = Vec::new();
    let mut i: usize = 0;
    while i < s.len()
        invariant
            i <= s.len(),
            pairs_view(r@) == exported_settings(s@.subrange(0, i as int)),
        decreases s.len() - i,
    {
        let ghost prev = r@;
        assert(s@.subrange(0, i + 1).drop_last() =~= s@.subrange(0, i as int));
        let (k, v) = &s[i];
        match v {
            Some(value) => {
                if is_synced_setting_key(k) && value.unicode_len() > 0 {
                    r.push((k.clone(), value.clone()));
                    assert(pairs_view(r@) =~= pairs_view(prev).push((k@, value@)));
                }
            },
            None => {},
        }
        i = i + 1;
    }
    assert(s@.subrange(0, i as int) =~= s@);
    r
}

fn scenario_name_table(snap: &ExportSnapshot) -> (r: Vec<(String, String)>)
    ensures
        pairs_view(r@) == scenario_names(*snap),
{
    let mut r: Vec<(String, String)> = Vec::new();
    let mut i: usize = 0;
    while i < snap.scenarios.len()
        invariant
            i <= snap.scenarios.len(),
            r@.len() == i,
            forall|k: int| 0 <= k < i ==> (#[trigger] r@[k].0@, r@[k].1@) == scenario_names(*snap)[k],
        decreases snap.scenarios.len() - i,
    {
        let rec = &snap.scenarios[i].record;
        r.push((rec.id.clone(), rec.name.clone()));
        i = i + 1;
    }
    assert(pairs_view(r@) =~= scenario_names(*snap));
    r
}

fn scenario_names_of(ids: &Vec<String>, table: &Vec<(String, String)>) -> (r: Vec<String>)
    ensures
        strs_view(r@) == names_for_ids(strs_view(ids@), pairs_view(table@)),
{
    let mut r: Vec<String> = Vec::new();
    let mut i: usize = 0;
    while i < ids.len()
        invariant
            i <= ids.len(),
            strs_view(r@) == names_for_ids(strs_view(ids@).subrange(0, i as int), pairs_view(table@)),
        decreases ids.len() - i,
    {
        let ghost prev = r@;
        assert(strs_view(ids@).subrange(0, i + 1).drop_last() =~= strs_view(ids@).subrange(0, i as int));
        assert(strs_view(ids@).subrange(0, i + 1).last() == ids@[i as int]@);
        match find_last_key(table, &ids[i]) {
            Some(j) => {
                proof {
                    lemma_lookup_last_at(pairs_view(table@), ids@[i as int]@, j as int);
                }
                r.push(table[j].1.clone());
                assert(strs_view(r@) =~= strs_view(prev).push(table@[j as int].1@));
            },
            None => {
                proof {
                    lemma_lookup_last_none(pairs_view(table@), ids@[i as int]@);
                }
            },
        }
        i = i + 1;
    }
    assert(strs_view(ids@).subrange(0, i as int) =~= strs_view(ids@));
    r
}

fn targets_of(targets: &Vec<TargetRecord>, id: &String) -> (r: Vec<(String, String)>)
    ensures
        pairs_view(r@) == targets_for(targets@, id@),
{
    let mut r: Vec<(String, String)> = Vec::new();
    let mut i: usize = 0;
    while i < targets.len()
        invariant
            i <= targets.len(),
            pairs_view(r@) == targets_for(targets@.subrange(0, i as int), id@),
        decreases targets.len() - i,
    {
        let ghost prev = r@;
        assert(targets@.subrange(0, i + 1).drop_last() =~= targets@.subrange(0, i as int));
        let t = &targets[i];
        if t.skill_id == *id {
            r.push((t.tool.clone(), t.mode.clone()));
            assert(pairs_view(r@) =~= pairs_view(prev).push((t.tool@, t.mode@)));
        }
        i = i + 1;
    }
    assert(targets@.subrange(0, i as int) =~= targets@);
    r
}

fn tags_for(snap: &ExportSnapshot, id: &String) -> (r: Vec<String>)
    ensures
        strs_view(r@) == tags_of(*snap, id@),
{
    match find_last_key(&snap.tags, id) {
        Some(j) => {
            proof {
                lemma_lookup_last_at(tag_entries(snap.tags@), id@, j as int);
            }
            clone_strs(&snap.tags[j].1)
        },
        None => {
            proof {
                lemma_lookup_last_none(tag_entries(snap.tags@), id@);
            }
            let r: Vec<String> = Vec::new();
            assert(strs_view(r@) =~= Seq::<Seq<char>>::empty());
            r
        },
    }
}

fn export_skill(s: &ExportSkill, snap: &ExportSnapshot, scenario_table: &Vec<(String, String)>) -> (ms: ManifestSkill)
    requires
        pairs_view(scenario_table@) == scenario_names(*snap),
    ensures
        exports_skill(ms, *s, *snap),
{
    let r = &s.record;
    ManifestSkill {
        name: r.name.clone(),
        description: clone_opt(&r.description),
        source_type: r.source_type.clone(),
        source_ref: clone_opt(&r.source_ref),
        source_ref_resolved: clone_opt(&r.source_ref_resolved),
        source_subpath: clone_opt(&r.source_subpath),
        source_branch: clone_opt(&r.source_branch),
        source_revision: clone_opt(&r.source_revision),
        remote_revision: clone_opt(&r.remote_revision),
        content_hash: clone_opt(&r.content_hash),
        enabled: r.enabled,
        tags: tags_for(snap, &r.id),
        scenarios: scenario_names_of(&s.scenario_ids, scenario_table),
        tool_targets: targets_of(&snap.targets, &r.id),
    }
}

fn stored_toggles(t: &Vec<ToolToggle>) -> (r: Vec<(String, bool)>)
    ensures
        flags_view(r@) == stored_flags(t@),
{
    let mut r: Vec<(String, bool)> = Vec::new();
    let mut i: usize = 0;
    while i < t.len()
        invariant
            i <= t.len(),
            r@.len() == i,
            forall|k: int| 0 <= k < i ==> (#[trigger] r@[k].0@, r@[k].1) == stored_flags(t@)[k],
        decreases t.len() - i,
    {
        r.push((t[i].tool.clone(), t[i].enabled));
        i = i + 1;
    }
    assert(flags_view(r@) =~= stored_flags(t@));
    r
}

/// The name of the first skill of `snap` with identifier `id`.
fn first_skill_name(snap: &ExportSnapshot, id: &String) -> (r: Option<String>)
    ensures
        opt_view(r) == lookup_first(skill_names(*snap), id@),
{
    let mut i: usize = 0;
    while i < snap.skills.len()
        invariant
            i <= snap.skills.len(),
            forall|j: int| 0 <= j < i ==> skill_names(*snap)[j].0 != id@,
        decreases snap.skills.len() - i,
    {
        if snap.skills[i].record.id == *id {
            proof {
                lemma_lookup_first_at(skill_names(*snap), id@, i as int);
            }
            return Some(snap.skills[i].record.name.clone());
        }
        i = i + 1;
    }
    proof {
        lemma_lookup_last_none(skill_names(*snap), id@);
    }
    None
}

fn export_toggles(members: &Vec<ScenarioMember>, snap: &ExportSnapshot) -> (r: Vec<(String, Vec<(String, bool)>)>)
    ensures
        toggles_view(r@) == member_toggles(members@, skill_names(*snap)),
{
    let mut r: Vec<(String, Vec<(String, bool)>)> = Vec::new();
    let mut i: usize = 0;
    while i < members.len()
        invariant
            i <= members.len(),
            toggles_view(r@) == member_toggles(members@.subrange(0, i as int), skill_names(*snap)),
        decreases members.len() - i,
    {
        let ghost prev = r@;
        assert(members@.subrange(0, i + 1).drop_last() =~= members@.subrange(0, i as int));
        let m = &members[i];
        match first_skill_name(snap, &m.skill_id) {
            Some(name) => {
                if m.toggles.len() > 0 {
                    let flags = stored_toggles(&m.toggles);
                    r.push((name, flags));
                    assert(toggles_view(r@) =~= toggles_view(prev).push((r@.last().0@, stored_flags(m.toggles@))));
                }
            },
            None => {},
        }
        i = i + 1;
    }
    assert(members@.subrange(0, i as int) =~= members@);
    r
}

fn export_scenario(s: &ExportScenario, snap: &ExportSnapshot) -> (ms: ManifestScenario)
    ensures
        exports_scenario(ms, *s, *snap),
{
    ManifestScenario {
        name: s.record.name.clone(),
        description: clone_opt(&s.record.description),
        icon: clone_opt(&s.record.icon),
        sort_order: s.record.sort_order,
        skill_tool_toggles: export_toggles(&s.members, snap),
    }
}

/// Builds the manifest of what the store holds, stamped `exported_at`.
pub fn build_manifest(snap: &ExportSnapshot, exported_at: String) -> (m: SkillsManifest)
    ensures
        is_export_of(m, *snap, exported_at@),
{
    let scenario_table = scenario_name_table(snap);
    let mut skills: Vec<ManifestSkill> = Vec::new();
    let mut i: usize = 0;
    while i < snap.skills.len()
        invariant
            i <= snap.skills.len(),
            pairs_view(scenario_table@) == scenario_names(*snap),
            skills@.len() == i,
            forall|j: int| 0 <= j < i ==> exports_skill(#[trigger] skills@[j], snap.skills@[j], *snap),
        decreases snap.skills.len() - i,
    {
        skills.push(export_skill(&snap.skills[i], snap, &scenario_table));
        i = i + 1;
    }
    let mut scenarios: Vec<ManifestScenario> = Vec::new();
    let mut i: usize = 0;
    while i < snap.scenarios.len()
        invariant
            i <= snap.scenarios.len(),
            scenarios@.len() == i,
            forall|j: int| 0 <= j < i ==> exports_scenario(#[trigger] scenarios@[j], snap.scenarios@[j], *snap),
        decreases snap.scenarios.len() - i,
    {
        scenarios.push(export_scenario(&snap.scenarios[i], snap));
        i = i + 1;
    }
    let active_scenario = match &snap.active_scenario_id {
        Some(id) => match find_last_key(&scenario_table, id) {
            Some(j) => {
                proof {
                    lemma_lookup_last_at(pairs_view(scenario_table@), id@, j as int);
                }
                Some(scenario_table[j].1.clone())
            },
            None => {
                proof {
                    lemma_lookup_last_none(pairs_view(scenario_table@), id@);
                }
                None
            },
        },
        None => None,
    };
    SkillsManifest {
        version: MANIFEST_VERSION,
        exported_at,
        settings: export_settings(&snap.settings),
        skills,
        scenarios,
        active_scenario,
    }
}

/// Builds the manifest of what the store holds, stamped with the current time.
pub fn export_manifest(snap: &ExportSnapshot) -> (m: SkillsManifest)
    ensures
        is_export_of(m, *snap, m.exported_at@),
        crate::fresh::is_utc_rfc3339(m.exported_at@),
{
    build_manifest(snap, crate::fresh::now_rfc3339())
}

/// A manifest carries only synced settings, and only those with a value.
pub proof fn lemma_exported_settings_are_synced(s: Seq<(String, Option<String>)>)
    ensures
        forall|i: int| 0 <= i < exported_settings(s).len() ==>
            synced_keys().contains(#[trigger] exported_settings(s)[i].0) && exported_settings(s)[i].1.len() > 0,
    decreases s.len(),
{
    if s.len() > 0 {
        lemma_exported_settings_are_synced(s.drop_last());
        let rest = exported_settings(s.drop_last());
        assert forall|i: int| 0 <= i < exported_settings(s).len() implies
            synced_keys().contains(#[trigger] exported_settings(s)[i].0) && exported_settings(s)[i].1.len() > 0 by {
            if i < rest.len() {
                assert(exported_settings(s)[i] == rest[i]);
            }
        }
    }
}

/// Every synced setting with a non-empty stored value is carried.
pub proof fn lemma_synced_settings_are_exported(s: Seq<(String, Option<String>)>, i: int)
    requires
        0 <= i < s.len(),
        synced_keys().contains(s[i].0@),
        s[i].1 is Some,
        s[i].1.unwrap()@.len() > 0,
    ensures
        exported_settings(s).contains((s[i].0@, s[i].1.unwrap()@)),
    decreases s.len(),
{
    let rest = exported_settings(s.drop_last());
    if i < s.len() - 1 {
        assert(s.drop_last()[i] == s[i]);
        lemma_synced_settings_are_exported(s.drop_last(), i);
        let k = choose|k: int| 0 <= k < rest.len() && rest[k] == (s[i].0@, s[i].1.unwrap()@);
        assert(exported_settings(s)[k] == rest[k]);
    } else {
        assert(exported_settings(s) == rest.push((s[i].0@, s[i].1.unwrap()@)));
        assert(exported_settings(s)[rest.len() as int] == (s[i].0@, s[i].1.unwrap()@));
    }
}

/// The entries of a settings list whose key is synced, as views.
pub open spec fn synced_part(s: Seq<(String, Option<String>)>) -> Seq<(Seq<char>, Option<Seq<char>>)>
    decreases s.len(),
{
    if s.len() == 0 {
        Seq::empty()
    } else {
        let rest = synced_part(s.drop_last());
        if synced_keys().contains(s.last().0@) {
            rest.push((s.last().0@, opt_view(s.last().1)))
        } else {
            rest
        }
    }
}

/// The carried settings of synced entries: those with a non-empty value.
pub open spec fn carried(v: Seq<(Seq<char>, Option<Seq<char>>)>) -> Seq<(Seq<char>, Seq<char>)>
    decreases v.len(),
{
    if v.len() == 0 {
        Seq::empty()
    } else {
        let rest = carried(v.drop_last());
        match v.last().1 {
            Some(value) => if value.len() > 0 { rest.push((v.last().0, value)) } else { rest },
            None => rest,
        }
    }
}

proof fn lemma_exported_settings_from_synced_part(s: Seq<(String, Option<String>)>)
    ensures
        exported_settings(s) == carried(synced_part(s)),
    decreases s.len(),
{
    if s.len() > 0 {
        lemma_exported_settings_from_synced_part(s.drop_last());
        let p = synced_part(s);
        if synced_keys().contains(s.last().0@) {
            assert(p.drop_last() =~= synced_part(s.drop_last()));
        }
    }
}

/// Two stores that differ only in settings that do not travel export the
/// same manifest: whatever is a manifest of one, stamped alike, is a
/// manifest of the other.
pub proof fn lemma_unsynced_settings_do_not_matter(snap1: ExportSnapshot, snap2: ExportSnapshot, m: SkillsManifest, exported_at: Seq<char>)
    requires
        snap1.skills == snap2.skills,
        snap1.targets == snap2.targets,
        snap1.tags == snap2.tags,
        snap1.scenarios == snap2.scenarios,
        snap1.active_scenario_id == snap2.active_scenario_id,
        synced_part(snap1.settings@) == synced_part(snap2.settings@),
    ensures
        is_export_of(m, snap1, exported_at) <==> is_export_of(m, snap2, exported_at),
{
    lemma_exported_settings_from_synced_part(snap1.settings@);
    lemma_exported_settings_from_synced_part(snap2.settings@);
    assert(scenario_names(snap1) == scenario_names(snap2));
    assert(skill_names(snap1) == skill_names(snap2));
    assert forall|id: Seq<char>| tags_of(snap1, id) == tags_of(snap2, id) by {}
    if is_export_of(m, snap1, exported_at) {
        assert forall|i: int| 0 <= i < m.skills@.len() implies exports_skill(#[trigger] m.skills@[i], snap2.skills@[i], snap2) by {
            assert(exports_skill(m.skills@[i], snap1.skills@[i], snap1));
        }
        assert forall|i: int| 0 <= i < m.scenarios@.len() implies exports_scenario(#[trigger] m.scenarios@[i], snap2.scenarios@[i], snap2) by {
            assert(exports_scenario(m.scenarios@[i], snap1.scenarios@[i], snap1));
        }
    }
    if is_export_of(m, snap2, exported_at) {
        assert forall|i: int| 0 <= i < m.skills@.len() implies exports_skill(#[trigger] m.skills@[i], snap1.skills@[i], snap1) by {
            assert(exports_skill(m.skills@[i], snap2.skills@[i], snap2));
        }
        assert forall|i: int| 0 <= i < m.scenarios@.len() implies exports_scenario(#[trigger] m.scenarios@[i], snap1.scenarios@[i], snap1) by {
            assert(exports_scenario(m.scenarios@[i], snap2.scenarios@[i], snap2));
        }
    }
}


/// Each toggle entry of a scenario comes from one of its members that has
/// toggles and whose skill is known: the entry names that skill and lists
/// the member's stored (tool, enabled) pairs.
proof fn lemma_toggle_entry_from_member(members: Seq<ScenarioMember>, skills: Seq<(Seq<char>, Seq<char>)>, e: int)
    requires
        0 <= e < member_toggles(members, skills).len(),
    ensures
        exists|j: int| 0 <= j < members.len() && {
            &&& (#[trigger] members[j]).toggles@.len() > 0
            &&& lookup_first(skills, members[j].skill_id@) == Some(member_toggles(members, skills)[e].0)
            &&& member_toggles(members, skills)[e].1 == stored_flags(members[j].toggles@)
        },
    decreases members.len(),
{
    let rest = member_toggles(members.drop_last(), skills);
    let all = member_toggles(members, skills);
    if e < rest.len() {
        assert(all[e] == rest[e]);
        lemma_toggle_entry_from_member(members.drop_last(), skills, e);
        let j = choose|j: int| 0 <= j < members.drop_last().len() && {
            &&& (#[trigger] members.drop_last()[j]).toggles@.len() > 0
            &&& lookup_first(skills, members.drop_last()[j].skill_id@) == Some(rest[e].0)
            &&& rest[e].1 == stored_flags(members.drop_last()[j].toggles@)
        };
        assert(members.drop_last()[j] == members[j]);
    } else {
        let j = members.len() - 1;
        assert(members.last() == members[j]);
        assert(all[e] == all.last());
    }
}

/// Each member of a scenario that has toggles and whose skill is known has
/// an entry that names that skill and lists its stored (tool, enabled) pairs.
proof fn lemma_member_has_toggle_entry(members: Seq<ScenarioMember>, skills: Seq<(Seq<char>, Seq<char>)>, j: int)
    requires
        0 <= j < members.len(),
        members[j].toggles@.len() > 0,
        lookup_first(skills, members[j].skill_id@) is Some,
    ensures
        exists|e: int| 0 <= e < member_toggles(members, skills).len() && {
            let entry = #[trigger] member_toggles(members, skills)[e];
            &&& lookup_first(skills, members[j].skill_id@) == Some(entry.0)
            &&& entry.1 == stored_flags(members[j].toggles@)
        },
    decreases members.len(),
{
    let rest = member_toggles(members.drop_last(), skills);
    let all = member_toggles(members, skills);
    if j < members.len() - 1 {
        assert(members.drop_last()[j] == members[j]);
        lemma_member_has_toggle_entry(members.drop_last(), skills, j);
        let e = choose|e: int| 0 <= e < rest.len() && {
            let entry = #[trigger] member_toggles(members.drop_last(), skills)[e];
            &&& lookup_first(skills, members.drop_last()[j].skill_id@) == Some(entry.0)
            &&& entry.1 == stored_flags(members.drop_last()[j].toggles@)
        };
        assert(all[e] == rest[e]);
    } else {
        assert(members.last() == members[j]);
        assert(all[rest.len() as int] == all.last());
    }
}

/// Every exported tool toggle carries the stored toggle's own tool and
/// enabled flag: each (skill, toggles) entry of an exported scenario belongs
/// to one member of the stored scenario, names that member's skill, and
/// lists exactly the member's stored toggles, in order, each as its tool and
/// its enabled flag.
pub proof fn lemma_exported_toggles_carry_stored_flags(m: SkillsManifest, snap: ExportSnapshot, exported_at: Seq<char>, n: int, e: int)
    requires
        is_export_of(m, snap, exported_at),
        0 <= n < m.scenarios@.len(),
        0 <= e < m.scenarios@[n].skill_tool_toggles@.len(),
    ensures
        exists|j: int| 0 <= j < snap.scenarios@[n].members@.len() && {
            let entry = m.scenarios@[n].skill_tool_toggles@[e];
            let member = #[trigger] snap.scenarios@[n].members@[j];
            &&& lookup_first(skill_names(snap), member.skill_id@) == Some(entry.0@)
            &&& entry.1@.len() == member.toggles@.len()
            &&& entry.1@.len() > 0
            &&& forall|k: int| 0 <= k < entry.1@.len() ==>
                (#[trigger] entry.1@[k]).0@ == member.toggles@[k].tool@ && entry.1@[k].1 == member.toggles@[k].enabled
        },
{
    let ms = m.scenarios@[n];
    let s = snap.scenarios@[n];
    assert(exports_scenario(ms, s, snap));
    let entry = ms.skill_tool_toggles@[e];
    assert(toggles_view(ms.skill_tool_toggles@)[e] == (entry.0@, flags_view(entry.1@)));
    lemma_toggle_entry_from_member(s.members@, skill_names(snap), e);
    let j = choose|j: int| 0 <= j < s.members@.len() && {
        &&& (#[trigger] s.members@[j]).toggles@.len() > 0
        &&& lookup_first(skill_names(snap), s.members@[j].skill_id@) == Some(member_toggles(s.members@, skill_names(snap))[e].0)
        &&& member_toggles(s.members@, skill_names(snap))[e].1 == stored_flags(s.members@[j].toggles@)
    };
    let member = s.members@[j];
    assert(flags_view(entry.1@) == stored_flags(member.toggles@));
    assert forall|k: int| 0 <= k < entry.1@.len() implies
        (#[trigger] entry.1@[k]).0@ == member.toggles@[k].tool@ && entry.1@[k].1 == member.toggles@[k].enabled by {
        assert(flags_view(entry.1@)[k] == stored_flags(member.toggles@)[k]);
    }
}

/// Every stored toggle list reaches the manifest: each member of a stored
/// scenario that has toggles and whose skill is known has an entry in the
/// exported scenario that names its skill and lists its stored toggles, in
/// order, each as its tool and its enabled flag.
pub proof fn lemma_stored_toggles_are_exported(m: SkillsManifest, snap: ExportSnapshot, exported_at: Seq<char>, n: int, j: int)
    requires
        is_export_of(m, snap, exported_at),
        0 <= n < m.scenarios@.len(),
        0 <= j < snap.scenarios@[n].members@.len(),
        snap.scenarios@[n].members@[j].toggles@.len() > 0,
        lookup_first(skill_names(snap), snap.scenarios@[n].members@[j].skill_id@) is Some,
    ensures
        exists|e: int| 0 <= e < m.scenarios@[n].skill_tool_toggles@.len() && {
            let entry = #[trigger] m.scenarios@[n].skill_tool_toggles@[e];
            let member = snap.scenarios@[n].members@[j];
            &&& lookup_first(skill_names(snap), member.skill_id@) == Some(entry.0@)
            &&& entry.1@.len() == member.toggles@.len()
            &&& forall|k: int| 0 <= k < entry.1@.len() ==>
                (#[trigger] entry.1@[k]).0@ == member.toggles@[k].tool@ && entry.1@[k].1 == member.toggles@[k].enabled
        },
{
    let ms = m.scenarios@[n];
    let s = snap.scenarios@[n];
    assert(exports_scenario(ms, s, snap));
    let member = s.members@[j];
    lemma_member_has_toggle_entry(s.members@, skill_names(snap), j);
    let e = choose|e: int| 0 <= e < member_toggles(s.members@, skill_names(snap)).len() && {
        let en = #[trigger] member_toggles(s.members@, skill_names(snap))[e];
        &&& lookup_first(skill_names(snap), s.members@[j].skill_id@) == Some(en.0)
        &&& en.1 == stored_flags(s.members@[j].toggles@)
    };
    let entry = ms.skill_tool_toggles@[e];
    assert(toggles_view(ms.skill_tool_toggles@)[e] == (entry.0@, flags_view(entry.1@)));
    assert(flags_view(entry.1@) == stored_flags(member.toggles@));
    assert forall|k: int| 0 <= k < entry.1@.len() implies
        (#[trigger] entry.1@[k]).0@ == member.toggles@[k].tool@ && entry.1@[k].1 == member.toggles@[k].enabled by {
        assert(flags_view(entry.1@)[k] == stored_flags(member.toggles@)[k]);
    }
}

} // verus!
