use naudit::discovery::{discover_packages, PackageEntry};
use naudit::manifest::drop_name;
use naudit::orchestrate::{
    audit_dir_name, audit_paths, audit_report_path, audit_section, build_report, cache_dir_path,
    clean_targets, lock_copy_name, lock_file_path, plan_run, Phase, RunConfig,
};
use naudit::MainError;

#[test]
fn drop_name_falls_back_without_version_field() {
    assert_eq!(drop_name("{\"name\":\"x\"}"), Ok("DROP-UNKNOWN".to_string()));
}

#[test]
fn drop_name_reads_the_version_field() {
    assert_eq!(drop_name("{\"__version__\": \"7.2.0\"}"), Ok("7.2.0".to_string()));
    assert_eq!(audit_dir_name("7.2.0"), "7.2.0-AUDIT");
}

#[test]
fn drop_name_ignores_non_string_version() {
    assert_eq!(drop_name("{\"__version__\": 3}"), Ok("DROP-UNKNOWN".to_string()));
}

#[test]
fn drop_name_rejects_malformed_manifest() {
    assert_eq!(drop_name("not json at all"), Err(MainError::ManifestParseError));
}

#[test]
fn plan_rejects_root_without_manifest() {
    let cfg = RunConfig { do_clean: true, do_install: true, do_audit: true };
    assert_eq!(plan_run(&cfg, false), Err(MainError::ManifestNotFound));
}

#[test]
fn plan_orders_all_phases() {
    let cfg = RunConfig { do_clean: true, do_install: true, do_audit: true };
    let plan = plan_run(&cfg, true).unwrap();
    assert_eq!(
        plan,
        vec![
            Phase::PrepareAudit,
            Phase::Discover,
            Phase::Clean,
            Phase::Install,
            Phase::Audit,
            Phase::Archive,
        ]
    );
}

#[test]
fn plan_without_audit_skips_archive_too() {
    let cfg = RunConfig { do_clean: false, do_install: true, do_audit: false };
    let plan = plan_run(&cfg, true).unwrap();
    assert_eq!(plan, vec![Phase::Discover, Phase::Install]);
}

#[test]
fn audit_paths_lie_under_the_audit_area() {
    let p = audit_paths("/r", "7.2.0-AUDIT");
    assert_eq!(p.audit_root, "/r/.audit");
    assert_eq!(p.audit_dir, "/r/.audit/7.2.0-AUDIT");
    assert_eq!(p.tar_path, "/r/.audit/7.2.0-AUDIT.tar");
    assert_eq!(p.gz_path, "/r/.audit/7.2.0-AUDIT.tar.gz");
    assert_eq!(audit_report_path(&p.audit_dir), "/r/.audit/7.2.0-AUDIT/_audit.txt");
}

#[test]
fn package_paths_carry_their_markers() {
    assert_eq!(cache_dir_path("/r/pkgA"), "/r/pkgA/node_modules");
    assert_eq!(lock_file_path("/r/pkgA"), "/r/pkgA/package-lock.json");
}

#[test]
fn lock_copy_names_are_flat() {
    assert_eq!(lock_copy_name("_root_"), "_root_-package-lock.json");
    assert_eq!(lock_copy_name("sub/pkgB"), "sub-pkgB-package-lock.json");
}

#[test]
fn report_holds_each_section_and_the_footer() {
    let sections = vec![
        ("_root_".to_string(), "all good".to_string()),
        ("pkgA".to_string(), "1 issue".to_string()),
    ];
    let report = build_report(&sections);
    let expected = "\n==== AUDIT FOR  _root_ ====all good\n\
                    \n==== AUDIT FOR  pkgA ====1 issue\n\
                    \n\n========= NOTE:\nnpm audit --audit-level=moderate (for each node directory)\n";
    assert_eq!(report, expected);
    assert_eq!(audit_section("_root_", "all good"), "\n==== AUDIT FOR  _root_ ====all good\n");
}

#[test]
fn clean_targets_cover_every_discovered_package() {
    let candidates = vec!["/r/pkgA".to_string()];
    let entries: Vec<PackageEntry> = discover_packages("/r", &candidates);
    let targets = clean_targets(&entries);
    assert_eq!(targets.len(), 2);
    assert_eq!(targets[0].0, "/r/node_modules");
    assert_eq!(targets[0].1, "/r/package-lock.json");
    assert_eq!(targets[1].0, "/r/pkgA/node_modules");
    assert_eq!(targets[1].1, "/r/pkgA/package-lock.json");
}
