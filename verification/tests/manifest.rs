use skill_manager::import::{
    import_manifest, plan_import, update_status_for, ImportOp, ImportPlan, ImportResult, ManifestError,
    SkillDirFacts,
};
use skill_manager::manifest::{
    build_manifest, export_manifest, is_synced_setting_key, synced_settings_keys, ExportScenario,
    ExportSkill, ExportSnapshot, ManifestScenario, ManifestSkill, ScenarioMember, SkillsManifest,
    MANIFEST_VERSION,
};
use skill_manager::records::{ScenarioRecord, SkillRecord, TargetRecord, ToolToggle};

fn s(x: &str) -> String {
    x.to_string()
}

fn skill(id: &str, name: &str) -> SkillRecord {
    SkillRecord {
        id: s(id),
        name: s(name),
        description: Some(format!("{name} skill")),
        source_type: s("git"),
        source_ref: Some(format!("https://example.org/{name}.git")),
        source_ref_resolved: None,
        source_subpath: Some(s("skills")),
        source_branch: Some(s("main")),
        source_revision: Some(s("r1")),
        remote_revision: Some(s("r2")),
        central_path: format!("/home/u/.skills/{name}"),
        content_hash: Some(s("h")),
        enabled: true,
        created_at: 1,
        updated_at: 2,
        status: s("ok"),
        update_status: s("update_available"),
        last_checked_at: None,
        last_check_error: None,
    }
}

fn scenario(id: &str, name: &str) -> ScenarioRecord {
    ScenarioRecord { id: s(id), name: s(name), description: None, icon: Some(s("star")), sort_order: 3, created_at: 1, updated_at: 1 }
}

fn snapshot() -> ExportSnapshot {
    ExportSnapshot {
        skills: vec![
            ExportSkill { record: skill("k1", "pdf"), scenario_ids: vec![s("s2"), s("gone"), s("s1")] },
            ExportSkill { record: skill("k2", "xlsx"), scenario_ids: vec![] },
        ],
        targets: vec![
            TargetRecord { skill_id: s("k1"), tool: s("cursor"), mode: s("symlink") },
            TargetRecord { skill_id: s("k2"), tool: s("cursor"), mode: s("copy") },
            TargetRecord { skill_id: s("k1"), tool: s("windsurf"), mode: s("copy") },
        ],
        tags: vec![(s("k1"), vec![s("docs"), s("office")]), (s("k9"), vec![s("x")])],
        scenarios: vec![
            ExportScenario {
                record: scenario("s1", "Work"),
                members: vec![
                    ScenarioMember { skill_id: s("k1"), toggles: vec![ToolToggle { tool: s("cursor"), enabled: false }] },
                    ScenarioMember { skill_id: s("k2"), toggles: vec![] },
                    ScenarioMember { skill_id: s("zz"), toggles: vec![ToolToggle { tool: s("cursor"), enabled: true }] },
                ],
            },
            ExportScenario { record: scenario("s2", "Home"), members: vec![] },
        ],
        settings: vec![
            (s("sync_mode"), Some(s("symlink"))),
            (s("disabled_tools"), Some(s(""))),
            (s("custom_tools"), None),
            (s("secret_token"), Some(s("SECRET-REDACTED"))),
        ],
        active_scenario_id: Some(s("s2")),
    }
}

#[test]
fn synced_keys_are_the_six_settings() {
    let keys = synced_settings_keys();
    assert_eq!(
        keys,
        vec!["sync_mode", "disabled_tools", "custom_tools", "custom_tool_paths", "default_scenario", "update_check_ttl_minutes"]
    );
    assert!(is_synced_setting_key(&s("default_scenario")));
    assert!(!is_synced_setting_key(&s("theme")));
}

#[test]
fn export_builds_manifest_from_store() {
    let m = build_manifest(&snapshot(), s("2024-01-01T00:00:00+00:00"));
    assert_eq!(m.version, 1);
    assert_eq!(m.exported_at, "2024-01-01T00:00:00+00:00");
    assert_eq!(m.settings, vec![(s("sync_mode"), s("symlink"))]);
    assert_eq!(m.skills.len(), 2);
    let pdf = &m.skills[0];
    assert_eq!(pdf.name, "pdf");
    assert_eq!(pdf.description, Some(s("pdf skill")));
    assert_eq!(pdf.source_type, "git");
    assert_eq!(pdf.source_revision, Some(s("r1")));
    assert_eq!(pdf.tags, vec!["docs", "office"]);
    assert_eq!(pdf.scenarios, vec!["Home", "Work"]);
    assert_eq!(pdf.tool_targets, vec![(s("cursor"), s("symlink")), (s("windsurf"), s("copy"))]);
    let xlsx = &m.skills[1];
    assert!(xlsx.tags.is_empty());
    assert!(xlsx.scenarios.is_empty());
    assert_eq!(xlsx.tool_targets, vec![(s("cursor"), s("copy"))]);
    assert_eq!(m.scenarios.len(), 2);
    let work = &m.scenarios[0];
    assert_eq!(work.name, "Work");
    assert_eq!(work.icon, Some(s("star")));
    assert_eq!(work.sort_order, 3);
    assert_eq!(work.skill_tool_toggles, vec![(s("pdf"), vec![(s("cursor"), false)])]);
    assert!(m.scenarios[1].skill_tool_toggles.is_empty());
    assert_eq!(m.active_scenario, Some(s("Home")));
}

#[test]
fn export_tags_use_last_entry_and_unknown_active_is_dropped() {
    let mut snap = snapshot();
    snap.tags.push((s("k1"), vec![s("later")]));
    snap.active_scenario_id = Some(s("nope"));
    let m = build_manifest(&snap, s("t"));
    assert_eq!(m.skills[0].tags, vec!["later"]);
    assert_eq!(m.active_scenario, None);
    snap.active_scenario_id = None;
    assert_eq!(build_manifest(&snap, s("t")).active_scenario, None);
}

#[test]
fn export_stamps_current_time() {
    let m = export_manifest(&snapshot());
    assert!(m.exported_at.starts_with("20"));
    assert!(m.exported_at.contains('T'));
    assert!(m.exported_at.ends_with("+00:00"));
    assert!(m.exported_at.len() >= 25);
    let c: Vec<char> = m.exported_at.chars().collect();
    assert_eq!((c[4], c[7], c[10], c[13], c[16]), ('-', '-', 'T', ':', ':'));
    let frac = c.len() - 25;
    assert!(frac == 0 || frac == 4 || frac == 7 || frac == 10);
}

#[test]
fn update_status_rules() {
    let st = |t: &str, a: Option<&str>, b: Option<&str>| update_status_for(&s(t), &a.map(s), &b.map(s));
    assert_eq!(st("git", Some("a"), Some("a")), "up_to_date");
    assert_eq!(st("git", Some("a"), Some("b")), "update_available");
    assert_eq!(st("skillssh", Some("a"), None), "up_to_date");
    assert_eq!(st("skillssh", None, Some("b")), "unknown");
    assert_eq!(st("git", None, None), "unknown");
    assert_eq!(st("local", Some("a"), Some("b")), "local_only");
    assert_eq!(st("import", None, None), "local_only");
}

fn mskill(name: &str, scenarios: Vec<&str>, tags: Vec<&str>) -> ManifestSkill {
    ManifestSkill {
        name: s(name),
        description: None,
        source_type: s("git"),
        source_ref: Some(s("https://example.org/x.git")),
        source_ref_resolved: None,
        source_subpath: None,
        source_branch: None,
        source_revision: Some(s("r1")),
        remote_revision: Some(s("r1")),
        content_hash: None,
        enabled: false,
        tags: tags.into_iter().map(s).collect(),
        scenarios: scenarios.into_iter().map(s).collect(),
        tool_targets: vec![],
    }
}

fn mscenario(name: &str, toggles: Vec<(&str, Vec<(&str, bool)>)>) -> ManifestScenario {
    ManifestScenario {
        name: s(name),
        description: Some(s("d")),
        icon: None,
        sort_order: 7,
        skill_tool_toggles: toggles
            .into_iter()
            .map(|(k, v)| (s(k), v.into_iter().map(|(t, e)| (s(t), e)).collect()))
            .collect(),
    }
}

fn manifest() -> SkillsManifest {
    SkillsManifest {
        version: 1,
        exported_at: s("t"),
        settings: vec![(s("sync_mode"), s("copy")), (s("theme"), s("dark"))],
        skills: vec![
            mskill("pdf", vec!["Work", "Nowhere"], vec!["docs"]),
            mskill("gone", vec![], vec![]),
            mskill("old", vec!["Work"], vec!["x"]),
        ],
        scenarios: vec![
            mscenario("Work", vec![("pdf", vec![("cursor", true)]), ("ghost", vec![("cursor", false)])]),
            mscenario("Home", vec![]),
        ],
        active_scenario: Some(s("Work")),
    }
}

fn facts() -> Vec<SkillDirFacts> {
    vec![
        SkillDirFacts { central_path: s("/c/pdf"), exists: true, content_hash: Some(s("dirhash")) },
        SkillDirFacts { central_path: s("/c/gone"), exists: false, content_hash: None },
        SkillDirFacts { central_path: s("/c/old"), exists: true, content_hash: None },
    ]
}

fn existing_skills() -> Vec<SkillRecord> {
    let mut old = skill("k-old", "old");
    old.central_path = s("/c/old");
    vec![old]
}

fn ids() -> Vec<String> {
    (0..5).map(|i| format!("id{i}")).collect()
}

fn run() -> ImportPlan {
    plan_import(&manifest(), &vec![scenario("s-home", "Home")], &existing_skills(), &facts(), &ids(), &vec![10, 11, 12, 13, 14])
        .ok()
        .unwrap()
}

#[test]
fn import_counts() {
    let r = run().result;
    assert_eq!(
        (r.skills_imported, r.skills_skipped, r.skills_missing, r.scenarios_created),
        (1, 1, 1, 1)
    );
}

#[test]
fn import_operations_in_order() {
    let ops = run().ops;
    assert_eq!(ops.len(), 7);
    match &ops[0] {
        ImportOp::SetSetting { key, value } => assert_eq!((key.as_str(), value.as_str()), ("sync_mode", "copy")),
        _ => panic!("setting first"),
    }
    match &ops[1] {
        ImportOp::InsertScenario(r) => {
            assert_eq!((r.id.as_str(), r.name.as_str(), r.sort_order, r.created_at), ("id0", "Work", 7, 10));
            assert_eq!(r.description, Some(s("d")));
        },
        _ => panic!("new scenario"),
    }
    match &ops[2] {
        ImportOp::InsertSkill(r) => {
            assert_eq!(r.id, "id2");
            assert_eq!(r.name, "pdf");
            assert_eq!(r.central_path, "/c/pdf");
            assert_eq!(r.content_hash, Some(s("dirhash")));
            assert_eq!(r.status, "ok");
            assert_eq!(r.update_status, "up_to_date");
            assert_eq!((r.created_at, r.updated_at), (12, 12));
            assert!(!r.enabled);
            assert_eq!(r.last_checked_at, None);
        },
        _ => panic!("new skill"),
    }
    match &ops[3] {
        ImportOp::SetTags { skill_id, tags } => {
            assert_eq!(skill_id, "id2");
            assert_eq!(tags, &vec![s("docs")]);
        },
        _ => panic!("tags"),
    }
    match &ops[4] {
        ImportOp::AddSkillToScenario { scenario_id, skill_id } => assert_eq!((scenario_id.as_str(), skill_id.as_str()), ("id0", "id2")),
        _ => panic!("membership"),
    }
    match &ops[5] {
        ImportOp::SetToolToggle { scenario_id, skill_id, tool, enabled } => {
            assert_eq!((scenario_id.as_str(), skill_id.as_str(), tool.as_str(), *enabled), ("id0", "id2", "cursor", true))
        },
        _ => panic!("toggle"),
    }
    match &ops[6] {
        ImportOp::SetActiveScenario { scenario_id } => assert_eq!(scenario_id, "id0"),
        _ => panic!("active"),
    }
    assert!(ops[0].is_required() && ops[1].is_required() && ops[2].is_required());
    assert!(!ops[3].is_required() && !ops[4].is_required() && !ops[5].is_required() && !ops[6].is_required());
}

#[test]
fn manifest_hash_wins_over_directory_hash() {
    let mut m = manifest();
    m.skills[0].content_hash = Some(s("fromfile"));
    let plan = plan_import(&m, &vec![], &vec![], &facts(), &ids(), &vec![0; 5]).ok().unwrap();
    let rec = plan
        .ops
        .iter()
        .find_map(|o| match o {
            ImportOp::InsertSkill(r) if r.name == "pdf" => Some(r),
            _ => None,
        })
        .unwrap();
    assert_eq!(rec.content_hash, Some(s("fromfile")));
}

#[test]
fn duplicate_scenario_names_create_one_scenario() {
    let mut m = manifest();
    m.scenarios = vec![mscenario("Work", vec![]), mscenario("Work", vec![])];
    m.skills = vec![];
    m.active_scenario = None;
    let plan = plan_import(&m, &vec![], &vec![], &vec![], &ids(), &vec![0; 5]).ok().unwrap();
    assert_eq!(plan.result.scenarios_created, 1);
}

#[test]
fn duplicate_skill_paths_import_once() {
    let mut m = manifest();
    m.skills = vec![mskill("pdf", vec![], vec![]), mskill("pdf", vec![], vec![])];
    let f = vec![
        SkillDirFacts { central_path: s("/c/pdf"), exists: true, content_hash: None },
        SkillDirFacts { central_path: s("/c/pdf"), exists: true, content_hash: None },
    ];
    let plan = plan_import(&m, &vec![], &vec![], &f, &ids(), &vec![0; 5]).ok().unwrap();
    assert_eq!((plan.result.skills_imported, plan.result.skills_skipped), (1, 1));
}

#[test]
fn newer_version_is_refused() {
    let mut m = manifest();
    m.version = 2;
    match plan_import(&m, &vec![], &vec![], &facts(), &ids(), &vec![0; 5]) {
        Err(ManifestError::NewerVersion { found, supported }) => {
            assert_eq!((found, supported), (2, MANIFEST_VERSION));
        },
        Ok(_) => panic!("must be refused"),
    }
    assert!(matches!(import_manifest(&Some(m), &vec![], &vec![], &facts()), Err(ManifestError::NewerVersion { .. })));
}

#[test]
fn older_version_is_accepted() {
    let mut m = manifest();
    m.version = 0;
    assert!(plan_import(&m, &vec![], &vec![], &facts(), &ids(), &vec![0; 5]).is_ok());
}

#[test]
fn no_manifest_imports_nothing() {
    let plan = import_manifest(&None, &vec![], &vec![], &vec![]).ok().unwrap();
    assert!(plan.ops.is_empty());
    let d = ImportResult::default();
    assert_eq!(
        (plan.result.skills_imported, plan.result.skills_skipped, plan.result.skills_missing, plan.result.scenarios_created),
        (d.skills_imported, d.skills_skipped, d.skills_missing, d.scenarios_created)
    );
    assert_eq!(d.scenarios_created, 0);
}

#[test]
fn import_manifest_draws_fresh_ids_and_times() {
    let plan = import_manifest(&Some(manifest()), &vec![], &existing_skills(), &facts()).ok().unwrap();
    let mut seen = Vec::new();
    for op in &plan.ops {
        match op {
            ImportOp::InsertScenario(r) => {
                assert_eq!(r.id.len(), 36);
                assert!(r.created_at > 1_600_000_000_000);
                seen.push(r.id.clone());
            },
            ImportOp::InsertSkill(r) => {
                assert_eq!(r.id.len(), 36);
                assert_eq!(r.id.chars().nth(14), Some('4'));
                seen.push(r.id.clone());
            },
            _ => {},
        }
    }
    assert_eq!(seen.len(), 3);
    seen.sort();
    seen.dedup();
    assert_eq!(seen.len(), 3);
}

#[test]
fn reimport_adds_nothing() {
    let first = run();
    let mut scenarios = vec![scenario("s-home", "Home")];
    let mut skills = existing_skills();
    for op in first.ops {
        match op {
            ImportOp::InsertScenario(r) => scenarios.push(r),
            ImportOp::InsertSkill(r) => skills.push(r),
            _ => {},
        }
    }
    let second = plan_import(&manifest(), &scenarios, &skills, &facts(), &ids(), &vec![0; 5]).ok().unwrap();
    assert_eq!((second.result.scenarios_created, second.result.skills_imported, second.result.skills_skipped), (0, 0, 2));
    assert_eq!(second.result.skills_missing, first.result.skills_missing);
    // The store may list its rows in any order.
    scenarios.reverse();
    skills.reverse();
    let third = plan_import(&manifest(), &scenarios, &skills, &facts(), &ids(), &vec![0; 5]).ok().unwrap();
    assert_eq!((third.result.scenarios_created, third.result.skills_imported, third.result.skills_skipped, third.result.skills_missing), (0, 0, 2, 1));
}

#[test]
fn unsynced_settings_do_not_change_the_export() {
    let a = snapshot();
    let mut b = snapshot();
    b.settings.push((s("theme"), Some(s("dark"))));
    b.settings.retain(|(k, _)| k != "secret_token");
    let ma = build_manifest(&a, s("t"));
    let mb = build_manifest(&b, s("t"));
    assert_eq!(format!("{:?}", ma), format!("{:?}", mb));
}

#[test]
fn export_then_import_into_empty_store_recreates_everything() {
    let snap = snapshot();
    let m = build_manifest(&snap, s("t"));
    let f: Vec<SkillDirFacts> = m
        .skills
        .iter()
        .map(|k| SkillDirFacts { central_path: format!("/new/{}", k.name), exists: true, content_hash: None })
        .collect();
    let ids: Vec<String> = (0..4).map(|i| format!("n{i}")).collect();
    let plan = plan_import(&m, &vec![], &vec![], &f, &ids, &vec![5; 4]).ok().unwrap();
    let r = &plan.result;
    assert_eq!((r.scenarios_created, r.skills_imported, r.skills_skipped, r.skills_missing), (2, 2, 0, 0));
    let mut saw_pdf = false;
    let mut joined = Vec::new();
    let mut active = None;
    for op in &plan.ops {
        match op {
            ImportOp::InsertSkill(rec) if rec.name == "pdf" => {
                saw_pdf = true;
                assert_eq!(rec.description, Some(s("pdf skill")));
                assert_eq!(rec.source_branch, Some(s("main")));
                assert_eq!(rec.remote_revision, Some(s("r2")));
                assert!(rec.enabled);
            },
            ImportOp::AddSkillToScenario { scenario_id, skill_id } => joined.push((scenario_id.clone(), skill_id.clone())),
            ImportOp::SetActiveScenario { scenario_id } => active = Some(scenario_id.clone()),
            _ => {},
        }
    }
    assert!(saw_pdf);
    joined.sort();
    assert_eq!(joined, vec![(s("n0"), s("n2")), (s("n1"), s("n2"))]);
    assert_eq!(active, Some(s("n1")));
}

#[test]
fn export_then_import_into_same_store_adds_nothing() {
    let snap = snapshot();
    let m = build_manifest(&snap, s("t"));
    let scenarios: Vec<ScenarioRecord> = vec![scenario("s1", "Work"), scenario("s2", "Home")];
    let skills = vec![skill("k1", "pdf"), skill("k2", "xlsx")];
    let f: Vec<SkillDirFacts> = skills
        .iter()
        .map(|k| SkillDirFacts { central_path: k.central_path.clone(), exists: true, content_hash: None })
        .collect();
    let plan = plan_import(&m, &scenarios, &skills, &f, &ids(), &vec![0; 5]).ok().unwrap();
    assert_eq!((plan.result.scenarios_created, plan.result.skills_imported, plan.result.skills_skipped), (0, 0, 2));
}
