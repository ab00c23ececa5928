use vstd::prelude::*;

use crate::discovery::PackageEntry;
use crate::safety::{dir_marker_present, file_marker_present};
use crate::text::{chars_of, contains_at, string_of};
use crate::MainError;
use vstd::string::StringExecFns;

verus! {

/// Which phases one run performs; built once from the command line.
#[derive(Debug, Clone, Copy)]
pub struct RunConfig {
    pub do_clean: bool,
    pub do_install: bool,
    pub do_audit: bool,
}

/// One phase of a run, in pipeline order.
#[derive(Debug, Clone, Copy, PartialEq, Eq, Structural)]
pub enum Phase {
    PrepareAudit,
    Discover,
    Clean,
    Install,
    Audit,
    Archive,
}

/// The phases a configuration asks for, in the order they run: the audit
/// output directory is prepared first when auditing, discovery always runs,
/// and archiving runs exactly when auditing does.
pub open spec fn spec_plan(cfg: RunConfig) -> Seq<Phase> {
    (if cfg.do_audit {
        seq![Phase::PrepareAudit]
    } else {
        Seq::empty()
    }) + seq![Phase::Discover] + (if cfg.do_clean {
        seq![Phase::Clean]
    } else {
        Seq::empty()
    }) + (if cfg.do_install {
        seq![Phase::Install]
    } else {
        Seq::empty()
    }) + (if cfg.do_audit {
        seq![Phase::Audit, Phase::Archive]
    } else {
        Seq::empty()
    })
}

/// Validates a run and lays out its phases. A root without a manifest file is
/// rejected before any phase, so nothing is touched for it.
pub fn plan_run(cfg: &RunConfig, manifest_present: bool) -> (r: Result<Vec<Phase>, MainError>)
    ensures
        r is Ok <==> manifest_present,
        !manifest_present ==> (r matches Err(e) && e == MainError::ManifestNotFound),
        r matches Ok(v) ==> v@ == spec_plan(*cfg),
{
    if !manifest_present {
        return Err(MainError::ManifestNotFound);
    }
    let mut v: Vec<Phase> = Vec::new();
    if cfg.do_audit {
        v.push(Phase::PrepareAudit);
    }
    v.push(Phase::Discover);
    if cfg.do_clean {
        v.push(Phase::Clean);
    }
    if cfg.do_install {
        v.push(Phase::Install);
    }
    if cfg.do_audit {
        v.push(Phase::Audit);
        v.push(Phase::Archive);
    }
    proof {
        assert(v@ =~= spec_plan(*cfg));
    }
    Ok(v)
}

/// The name of the audit bundle for one run.
pub fn audit_dir_name(drop_name: &str) -> (r: String)
    ensures
        r@ == drop_name@ + "-AUDIT"@,
{
    String::from_str(drop_name).concat("-AUDIT")
}

/// Where one run's audit artifacts live, all under the root's audit area.
pub struct AuditPaths {
    pub audit_root: String,
    pub audit_dir: String,
    pub tar_path: String,
    pub gz_path: String,
}

/// Lays out the audit paths for a root and a bundle name. The audit
/// directory always carries the audit-area marker, so the removal guard
/// accepts recreating it from scratch.
pub fn audit_paths(root: &str, audit_name: &str) -> (r: AuditPaths)
    ensures
        r.audit_root@ == root@ + "/.audit"@,
        r.audit_dir@ == root@ + "/.audit/"@ + audit_name@,
        r.tar_path@ == root@ + "/.audit/"@ + audit_name@ + ".tar"@,
        r.gz_path@ == root@ + "/.audit/"@ + audit_name@ + ".tar.gz"@,
        dir_marker_present(r.audit_dir@),
{
    let audit_root = String::from_str(root).concat("/.audit");
    let audit_dir = String::from_str(root).concat("/.audit/").concat(audit_name);
    let tar_path = String::from_str(root).concat("/.audit/").concat(audit_name).concat(".tar");
    let gz_path = String::from_str(root).concat("/.audit/").concat(audit_name).concat(".tar.gz");
    proof {
        reveal_strlit("/.audit/");
        reveal_strlit(".audit");
        let rl = root@.len() as int;
        assert(audit_dir@.subrange(rl + 1, rl + 7) =~= ".audit"@);
        assert(contains_at(audit_dir@, ".audit"@, rl + 1));
    }
    AuditPaths { audit_root, audit_dir, tar_path, gz_path }
}

/// The consolidated report file inside the audit directory.
pub fn audit_report_path(audit_dir: &str) -> (r: String)
    ensures
        r@ == audit_dir@ + "/_audit.txt"@,
{
    String::from_str(audit_dir).concat("/_audit.txt")
}

/// A package's lock file. It always carries the lock-file marker, so the
/// removal guard accepts cleaning it.
pub fn lock_file_path(dir: &str) -> (r: String)
    ensures
        r@ == dir@ + "/package-lock.json"@,
        file_marker_present(r@),
{
    let r = String::from_str(dir).concat("/package-lock.json");
    proof {
        reveal_strlit("/package-lock.json");
        reveal_strlit("package-lock");
        let dl = dir@.len() as int;
        assert(r@.subrange(dl + 1, dl + 13) =~= "package-lock"@);
        assert(contains_at(r@, "package-lock"@, dl + 1));
    }
    r
}

/// A package's dependency-cache directory. It always carries the cache
/// marker, so the removal guard accepts cleaning it.
pub fn cache_dir_path(dir: &str) -> (r: String)
    ensures
        r@ == dir@ + "/node_modules"@,
        dir_marker_present(r@),
{
    let r = String::from_str(dir).concat("/node_modules");
    proof {
        reveal_strlit("/node_modules");
        reveal_strlit("node_modules");
        let dl = dir@.len() as int;
        assert(r@.subrange(dl + 1, dl + 13) =~= "node_modules"@);
        assert(contains_at(r@, "node_modules"@, dl + 1));
    }
    r
}

/// A label with every path separator replaced by a hyphen, so it can stand in
/// one flat file name.
pub open spec fn dashed(l: Seq<char>) -> Seq<char> {
    l.map_values(
        |c: char|
            if c == '/' {
                '-'
            } else {
                c
            },
    )
}

/// The flat file name under which a package's lock file is copied into the
/// audit directory.
pub fn lock_copy_name(label: &str) -> (r: String)
    ensures
        r@ == dashed(label@) + "-package-lock.json"@,
{
    let lv = chars_of(label);
    let n: usize = lv.len();
    let mut out: Vec<char> = Vec::new();
    let mut i: usize = 0;
    proof {
        assert(out@ =~= dashed(lv@.take(0)));
    }
    while i < n
        invariant
            n == lv@.len(),
            lv@ == label@,
            i <= n,
            out@ == dashed(lv@.take(i as int)),
        decreases n - i,
    {
        let c = lv[i];
        if c == '/' {
            out.push('-');
        } else {
            out.push(c);
        }
        proof {
            assert(out@ =~= dashed(lv@.take(i + 1)));
        }
        i += 1;
    }
    proof {
        assert(lv@.take(n as int) =~= lv@);
    }
    string_of(&out).concat("-package-lock.json")
}

/// One labeled section of the consolidated report.
pub open spec fn section_of(label: Seq<char>, body: Seq<char>) -> Seq<char> {
    "\n==== AUDIT FOR  "@ + label + " ===="@ + body + "\n"@
}

/// The fixed footer naming the audit command and threshold used.
pub open spec fn footer_text() -> Seq<char> {
    "\n\n========= NOTE:\nnpm audit --audit-level=moderate (for each node directory)\n"@
}

/// All sections in order, concatenated.
pub open spec fn sections_text(secs: Seq<(Seq<char>, Seq<char>)>) -> Seq<char>
    decreases secs.len(),
{
    if secs.len() == 0 {
        Seq::empty()
    } else {
        section_of(secs[0].0, secs[0].1) + sections_text(secs.skip(1))
    }
}

/// The whole consolidated report: every section, then the footer.
pub open spec fn report_text(secs: Seq<(Seq<char>, Seq<char>)>) -> Seq<char> {
    sections_text(secs) + footer_text()
}

/// The label-and-text pairs a report is built from.
pub open spec fn pair_views(ps: Seq<(String, String)>) -> Seq<(Seq<char>, Seq<char>)> {
    ps.map_values(|p: (String, String)| (p.0@, p.1@))
}

/// Formats one labeled section of the consolidated report.
pub fn audit_section(label: &str, body: &str) -> (r: String)
    ensures
        r@ == section_of(label@, body@),
{
    String::from_str("\n==== AUDIT FOR  ").concat(label).concat(" ====").concat(body).concat("\n")
}

proof fn lemma_sections_push(secs: Seq<(Seq<char>, Seq<char>)>, x: (Seq<char>, Seq<char>))
    ensures
        sections_text(secs.push(x)) == sections_text(secs) + section_of(x.0, x.1),
    decreases secs.len(),
{
    if secs.len() == 0 {
        assert(secs.push(x)[0] == x);
        assert(secs.push(x).skip(1) =~= Seq::<(Seq<char>, Seq<char>)>::empty());
        assert(sections_text(Seq::<(Seq<char>, Seq<char>)>::empty()) =~= Seq::<char>::empty());
        assert(sections_text(secs.push(x)) =~= section_of(x.0, x.1));
        assert(sections_text(secs.push(x)) =~= sections_text(secs) + section_of(x.0, x.1));
    } else {
        lemma_sections_push(secs.skip(1), x);
        assert(secs.push(x)[0] == secs[0]);
        assert(secs.push(x).skip(1) =~= secs.skip(1).push(x));
        assert(section_of(secs[0].0, secs[0].1) + (sections_text(secs.skip(1)) + section_of(
            x.0,
            x.1,
        )) =~= (section_of(secs[0].0, secs[0].1) + sections_text(secs.skip(1))) + section_of(
            x.0,
            x.1,
        ));
    }
}

/// Assembles the consolidated report: one section per package, in the given
/// order, followed by the fixed footer.
pub fn build_report(sections: &Vec<(String, String)>) -> (r: String)
    ensures
        r@ == report_text(pair_views(sections@)),
{
    let n: usize = sections.len();
    let mut r = String::new();
    let mut i: usize = 0;
    proof {
        assert(pair_views(sections@).take(0) =~= Seq::<(Seq<char>, Seq<char>)>::empty());
        assert(r@ =~= sections_text(pair_views(sections@).take(0)));
    }
    while i < n
        invariant
            n == sections@.len(),
            i <= n,
            r@ == sections_text(pair_views(sections@).take(i as int)),
        decreases n - i,
    {
        let ghost pv = pair_views(sections@);
        let entry = &sections[i];
        let sec = audit_section(entry.0.as_str(), entry.1.as_str());
        r.append(sec.as_str());
        proof {
            lemma_sections_push(pv.take(i as int), pv[i as int]);
            assert(pv.take(i + 1) =~= pv.take(i as int).push(pv[i as int]));
            assert(pv[i as int].0 == sections@[i as int].0@);
            assert(pv[i as int].1 == sections@[i as int].1@);
        }
        i += 1;
    }
    proof {
        assert(pair_views(sections@).take(n as int) =~= pair_views(sections@));
    }
    let footer = String::from_str(
        "\n\n========= NOTE:\nnpm audit --audit-level=moderate (for each node directory)\n",
    );
    r.append(footer.as_str());
    r
}

/// The removal targets of the clean phase: for each discovered package, its
/// dependency-cache directory and its lock file, in discovery order. Every
/// target carries the marker its removal guard demands, so a clean over
/// discovered packages is never rejected by the guards.
pub fn clean_targets(entries: &Vec<PackageEntry>) -> (r: Vec<(String, String)>)
    ensures
        r@.len() == entries@.len(),
        forall|j: int| 0 <= j < r@.len() ==> (#[trigger] r@[j]).0@ == entries@[j].directory@
            + "/node_modules"@ && r@[j].1@ == entries@[j].directory@ + "/package-lock.json"@
            && dir_marker_present(r@[j].0@) && file_marker_present(r@[j].1@),
{
    let n: usize = entries.len();
    let mut r: Vec<(String, String)> = Vec::new();
    let mut j: usize = 0;
    while j < n
        invariant
            n == entries@.len(),
            j <= n,
            r@.len() == j,
            forall|k: int| 0 <= k < j ==> (#[trigger] r@[k]).0@ == entries@[k].directory@
                + "/node_modules"@ && r@[k].1@ == entries@[k].directory@ + "/package-lock.json"@
                && dir_marker_present(r@[k].0@) && file_marker_present(r@[k].1@),
        decreases n - j,
    {
        let dir = entries[j].directory.as_str();
        let pair = (cache_dir_path(dir), lock_file_path(dir));
        r.push(pair);
        j += 1;
    }
    r
}

} // verus!
