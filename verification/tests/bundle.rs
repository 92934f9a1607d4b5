use macbinbundler::action::{Action, ToolRun};
use macbinbundler::bundle::{base_binary, bundle, prepare_output};
use macbinbundler::error::BundleError;
use macbinbundler::helpers::{add_rpath, fix_id, fix_install_name, sign_binary};
use macbinbundler::model::{Binary, Pass};
use macbinbundler::plan::Plan;
use macbinbundler::snapshot::{LinkStatus, PathStatus, Query, Snapshot};

fn file() -> PathStatus {
    PathStatus { exists: true, is_file: true, link: LinkStatus::Plain }
}

fn dir() -> PathStatus {
    PathStatus { exists: true, is_file: false, link: LinkStatus::Plain }
}

fn absent() -> PathStatus {
    PathStatus { exists: false, is_file: false, link: LinkStatus::Plain }
}

fn node(path: &str, is_executable: bool, is_base: bool, libs: Vec<Binary>) -> Binary {
    let mut b = Binary::default();
    b.file_path = path.to_string();
    b.is_executable = is_executable;
    b.is_base = is_base;
    if !is_base {
        b.install_name_old = Some(format!("/old{}", path));
    }
    b.libs = libs;
    b
}

fn lib(path: &str, libs: Vec<Binary>) -> Binary {
    node(path, false, false, libs)
}

fn sample_tree() -> Binary {
    node(
        "/in/E",
        true,
        true,
        vec![
            lib("/l/libB.dylib", vec![lib("/l/libD.dylib", vec![lib("/l/libF.dylib", vec![])])]),
            lib("/l/libC.dylib", vec![]),
        ],
    )
}

fn all_nodes(b: &Binary) -> Vec<&Binary> {
    let mut out = vec![b];
    for l in &b.libs {
        out.extend(all_nodes(l));
    }
    out
}

fn listing(path: &str, lines: &[&str]) -> String {
    let mut s = format!("{}:\n", path);
    for l in lines {
        s.push_str(&format!("\t{} (compatibility version 1.0.0, current version 1.2.3)\n", l));
    }
    s
}

fn failed(stderr: &str) -> ToolRun {
    ToolRun { succeeded: false, stderr: stderr.to_string() }
}

#[test]
fn libs_path_reaches_every_node() {
    let mut t = sample_tree();
    t.set_libs_path(Some("Frameworks"));
    for n in all_nodes(&t) {
        assert_eq!(n.libs_path, Some("Frameworks".to_string()));
    }
    t.set_libs_path(None);
    for n in all_nodes(&t) {
        assert_eq!(n.libs_path, Some("libs".to_string()));
    }
    assert_eq!(all_nodes(&t).len(), 5);
}

#[test]
fn layout_is_flat_at_every_depth() {
    let mut t = sample_tree();
    t.set_libs_path(None);
    t.set_dest_folder("/out");
    let nodes = all_nodes(&t);
    assert_eq!(nodes[0].dest_folder_path, Some("/out".to_string()));
    for n in &nodes[1..] {
        assert_eq!(n.dest_folder_path, Some("/out/libs".to_string()));
    }
}

#[test]
fn layout_follows_the_given_libs_path() {
    let mut t = sample_tree();
    t.set_libs_path(Some("Contents/Frameworks"));
    t.set_dest_folder("/out/App");
    let nodes = all_nodes(&t);
    assert_eq!(nodes[0].dest_folder_path, Some("/out/App".to_string()));
    for n in &nodes[1..] {
        assert_eq!(n.dest_folder_path, Some("/out/App/Contents/Frameworks".to_string()));
    }
}

#[test]
fn dest_folder_without_libs_path_uses_the_default() {
    let mut t = sample_tree();
    t.set_dest_folder("/out");
    let nodes = all_nodes(&t);
    assert_eq!(nodes[0].dest_folder_path, Some("/out".to_string()));
    assert_eq!(nodes[3].dest_folder_path, Some("/out/libs".to_string()));
}

#[test]
fn libraries_get_their_identity() {
    let mut t = sample_tree();
    assert_eq!(t.change_install_names_as_rpath(), Ok(()));
    let nodes = all_nodes(&t);
    assert_eq!(nodes[0].rpath, None);
    assert_eq!(nodes[1].rpath, Some("@rpath/libB.dylib".to_string()));
    assert_eq!(nodes[2].rpath, Some("@rpath/libD.dylib".to_string()));
    assert_eq!(nodes[3].rpath, Some("@rpath/libF.dylib".to_string()));
    assert_eq!(nodes[4].rpath, Some("@rpath/libC.dylib".to_string()));
}

#[test]
fn bundled_library_gets_its_identity_too() {
    let mut t = node("/l/sub/libRoot.1.dylib", false, true, vec![]);
    assert_eq!(t.change_install_names_as_rpath(), Ok(()));
    assert_eq!(t.rpath, Some("@rpath/libRoot.1.dylib".to_string()));
}

#[test]
fn library_without_file_name_is_a_path_failure() {
    let mut t = node("/in/E", true, true, vec![lib("/l/libB.dylib", vec![]), lib("/l/..", vec![])]);
    assert_eq!(t.change_install_names_as_rpath(), Err(BundleError::Path("/l/..".to_string())));
    let mut root = node("/", false, true, vec![]);
    assert_eq!(root.change_install_names_as_rpath(), Err(BundleError::Path("/".to_string())));
}

#[test]
fn symbolic_links_are_resolved() {
    let mut s = Snapshot::new();
    s.paths.record("/in/E".to_string(), file());
    s.paths.record(
        "/l/libB.dylib".to_string(),
        PathStatus { exists: true, is_file: true, link: LinkStatus::Points("/l/libB.2.1.dylib".to_string()) },
    );
    s.paths.record("/l/libC.dylib".to_string(), file());
    let mut t = node("/in/E", true, true, vec![lib("/l/libB.dylib", vec![]), lib("/l/libC.dylib", vec![])]);
    assert_eq!(t.resolve_symlinks(&s), Ok(()));
    assert_eq!(t.file_path, "/in/E");
    assert_eq!(t.libs[0].file_path, "/l/libB.2.1.dylib");
    assert_eq!(t.libs[0].install_name_old, Some("/old/l/libB.dylib".to_string()));
    assert_eq!(t.libs[1].file_path, "/l/libC.dylib");
}

#[test]
fn unresolvable_link_is_a_path_failure() {
    let mut s = Snapshot::new();
    s.paths.record("/in/E".to_string(), file());
    s.paths.record(
        "/l/libB.dylib".to_string(),
        PathStatus { exists: false, is_file: false, link: LinkStatus::Dangling },
    );
    let mut t = node("/in/E", true, true, vec![lib("/l/libB.dylib", vec![]), lib("/l/libC.dylib", vec![])]);
    assert_eq!(t.resolve_symlinks(&s), Err(BundleError::Path("/l/libB.dylib".to_string())));
    let mut u = node("/in/E", true, true, vec![lib("/l/libC.dylib", vec![])]);
    assert_eq!(u.resolve_symlinks(&s),
        Err(BundleError::Unobserved(Query::Path("/l/libC.dylib".to_string()))));
}

#[test]
fn pass_changes_one_node_or_the_whole_tree() {
    let mut t = sample_tree();
    assert_eq!(t.apply(&Pass::LibsPath("x")), Ok(()));
    assert_eq!(t.libs_path, Some("x".to_string()));
    assert_eq!(t.libs[0].libs_path, None);
    assert_eq!(t.walk(&Pass::LibsPath("y")), Ok(()));
    assert_eq!(t.libs[0].libs[0].libs_path, Some("y".to_string()));
    assert_eq!(t.apply(&Pass::Placement), Err(BundleError::Path("/in/E".to_string())));
}

fn laid_out() -> Binary {
    let mut t = sample_tree();
    t.change_install_names_as_rpath().unwrap();
    t.set_libs_path(None);
    t.set_dest_folder("/out");
    t
}

#[test]
fn copies_go_to_the_destination() {
    let mut t = laid_out();
    let list = t.copy_to_dest().unwrap();
    let nodes = all_nodes(&t);
    assert_eq!(nodes[0].dest_file_path, Some("/out/E".to_string()));
    assert_eq!(nodes[1].dest_file_path, Some("/out/libs/libB.dylib".to_string()));
    assert_eq!(nodes[3].dest_file_path, Some("/out/libs/libF.dylib".to_string()));
    assert_eq!(
        list,
        vec![
            Action::CreateDir("/out".to_string()),
            Action::CopyFile { from: "/in/E".to_string(), to: "/out/E".to_string() },
            Action::CreateDir("/out/libs".to_string()),
            Action::CopyFile { from: "/l/libB.dylib".to_string(), to: "/out/libs/libB.dylib".to_string() },
            Action::CreateDir("/out/libs".to_string()),
            Action::CopyFile { from: "/l/libD.dylib".to_string(), to: "/out/libs/libD.dylib".to_string() },
            Action::CreateDir("/out/libs".to_string()),
            Action::CopyFile { from: "/l/libF.dylib".to_string(), to: "/out/libs/libF.dylib".to_string() },
            Action::CreateDir("/out/libs".to_string()),
            Action::CopyFile { from: "/l/libC.dylib".to_string(), to: "/out/libs/libC.dylib".to_string() },
        ]
    );
}

#[test]
fn copy_needs_the_destination_directory() {
    let mut t = sample_tree();
    assert_eq!(t.copy_to_dest(), Err(BundleError::Path("/in/E".to_string())));
    let mut u = sample_tree();
    u.set_dest_folder("/out");
    u.libs[1].file_path = "..".to_string();
    assert_eq!(u.copy_to_dest(), Err(BundleError::Path("..".to_string())));
}

#[test]
fn relocation_rewrites_identity_run_path_and_references() {
    let mut t = laid_out();
    t.copy_to_dest().unwrap();
    let list = t.fix_install_names().unwrap();
    assert_eq!(
        list,
        vec![
            add_rpath("/out/E", "@loader_path/libs"),
            fix_install_name("/out/E", "/old/l/libB.dylib", "@rpath/libB.dylib"),
            fix_install_name("/out/E", "/old/l/libC.dylib", "@rpath/libC.dylib"),
            fix_id("/out/libs/libB.dylib", "@rpath/libB.dylib"),
            add_rpath("/out/libs/libB.dylib", "@loader_path"),
            fix_install_name("/out/libs/libB.dylib", "/old/l/libD.dylib", "@rpath/libD.dylib"),
            fix_id("/out/libs/libD.dylib", "@rpath/libD.dylib"),
            add_rpath("/out/libs/libD.dylib", "@loader_path"),
            fix_install_name("/out/libs/libD.dylib", "/old/l/libF.dylib", "@rpath/libF.dylib"),
            fix_id("/out/libs/libF.dylib", "@rpath/libF.dylib"),
            add_rpath("/out/libs/libF.dylib", "@loader_path"),
            fix_id("/out/libs/libC.dylib", "@rpath/libC.dylib"),
            add_rpath("/out/libs/libC.dylib", "@loader_path"),
        ]
    );
}

#[test]
fn relocation_never_touches_the_binaries_that_were_read() {
    let mut t = laid_out();
    t.copy_to_dest().unwrap();
    for a in t.fix_install_names().unwrap().iter().chain(t.sign_all().unwrap().iter()) {
        let target = match a {
            Action::SetId { file, .. } => file,
            Action::AddRpath { file, .. } => file,
            Action::ChangeInstallName { file, .. } => file,
            Action::Sign(file) => file,
            Action::CreateDir(p) => p,
            Action::CopyFile { to, .. } => to,
        };
        assert!(target.starts_with("/out/"));
    }
}

#[test]
fn bundled_library_sets_its_identity_and_finds_its_libraries() {
    let mut t = node("/l/libRoot.dylib", false, true, vec![lib("/l/libB.dylib", vec![])]);
    t.change_install_names_as_rpath().unwrap();
    t.set_libs_path(Some("deps"));
    t.set_dest_folder("/out");
    t.copy_to_dest().unwrap();
    assert_eq!(
        t.fix_install_names().unwrap(),
        vec![
            fix_id("/out/libRoot.dylib", "@rpath/libRoot.dylib"),
            add_rpath("/out/libRoot.dylib", "@loader_path/deps"),
            fix_install_name("/out/libRoot.dylib", "/old/l/libB.dylib", "@rpath/libB.dylib"),
            fix_id("/out/deps/libB.dylib", "@rpath/libB.dylib"),
            add_rpath("/out/deps/libB.dylib", "@loader_path"),
        ]
    );
}

#[test]
fn relocation_needs_what_the_passes_before_it_give() {
    let t = sample_tree();
    assert_eq!(t.fix_install_names(), Err(BundleError::Relocation("/in/E".to_string())));
    let mut no_identity = sample_tree();
    no_identity.set_libs_path(None);
    no_identity.set_dest_folder("/out");
    no_identity.copy_to_dest().unwrap();
    assert_eq!(no_identity.fix_install_names(),
        Err(BundleError::Relocation("/l/libB.dylib".to_string())));
    let mut no_libs_path = sample_tree();
    no_libs_path.change_install_names_as_rpath().unwrap();
    no_libs_path.set_dest_folder("/out");
    no_libs_path.copy_to_dest().unwrap();
    assert_eq!(no_libs_path.fix_install_names(), Err(BundleError::Relocation("/in/E".to_string())));
    let mut no_old_name = laid_out();
    no_old_name.copy_to_dest().unwrap();
    no_old_name.libs[1].install_name_old = None;
    assert_eq!(no_old_name.fix_install_names(),
        Err(BundleError::Relocation("/l/libC.dylib".to_string())));
}

#[test]
fn dependency_without_identity_is_not_rewritten() {
    let mut t = laid_out();
    t.copy_to_dest().unwrap();
    t.libs[1].rpath = None;
    t.libs[1].is_executable = true;
    let list = t.own_rewrites("/out/E").unwrap();
    assert_eq!(list, vec![fix_install_name("/out/E", "/old/l/libB.dylib", "@rpath/libB.dylib")]);
}

#[test]
fn relocation_can_be_repeated() {
    let mut t = laid_out();
    t.copy_to_dest().unwrap();
    let first = t.fix_install_names().unwrap();
    let second = t.fix_install_names().unwrap();
    assert_eq!(first, second);
    let already = failed(
        "error: install_name_tool: for: /out/E (for architecture arm64) option \"-add_rpath @loader_path/libs\" would duplicate path, file already has LC_RPATH for: @loader_path/libs\n",
    );
    for a in &second {
        if let Action::AddRpath { .. } = a {
            assert_eq!(a.outcome(&already), Ok(()));
        }
    }
}

#[test]
fn every_copy_is_signed() {
    let mut t = laid_out();
    t.copy_to_dest().unwrap();
    assert_eq!(
        t.sign_all().unwrap(),
        vec![
            sign_binary("/out/E"),
            sign_binary("/out/libs/libB.dylib"),
            sign_binary("/out/libs/libD.dylib"),
            sign_binary("/out/libs/libF.dylib"),
            sign_binary("/out/libs/libC.dylib"),
        ]
    );
    assert_eq!(t.gather(Plan::Sign), t.sign_all());
    let unplaced = sample_tree();
    assert_eq!(unplaced.sign_all(), Err(BundleError::Signing("/in/E".to_string())));
}

#[test]
fn operations_are_built_from_their_parts() {
    assert_eq!(fix_id("/f", "@rpath/f"),
        Action::SetId { file: "/f".to_string(), id: "@rpath/f".to_string() });
    assert_eq!(
        fix_install_name("/f", "/old", "@rpath/new"),
        Action::ChangeInstallName {
            file: "/f".to_string(),
            from: "/old".to_string(),
            to: "@rpath/new".to_string(),
        }
    );
    assert_eq!(add_rpath("/f", "@loader_path"),
        Action::AddRpath { file: "/f".to_string(), rpath: "@loader_path".to_string() });
    assert_eq!(sign_binary("/f"), Action::Sign("/f".to_string()));
}

#[test]
fn success_is_success_for_every_operation() {
    let ok = ToolRun { succeeded: true, stderr: "warning: file already has LC_RPATH".to_string() };
    for a in [
        Action::CreateDir("/d".to_string()),
        Action::CopyFile { from: "/a".to_string(), to: "/b".to_string() },
        fix_id("/f", "i"),
        add_rpath("/f", "r"),
        fix_install_name("/f", "a", "b"),
        sign_binary("/f"),
    ] {
        assert_eq!(a.outcome(&ok), Ok(()));
    }
}

#[test]
fn failure_is_read_by_the_kind_of_operation() {
    let bad = failed("error: no such file");
    assert_eq!(Action::CreateDir("/d".to_string()).outcome(&bad),
        Err(BundleError::Path("/d".to_string())));
    assert_eq!(Action::CopyFile { from: "/a".to_string(), to: "/b".to_string() }.outcome(&bad),
        Err(BundleError::Path("/b".to_string())));
    assert_eq!(fix_id("/f", "i").outcome(&bad),
        Err(BundleError::Relocation("error: no such file".to_string())));
    assert_eq!(add_rpath("/f", "r").outcome(&bad),
        Err(BundleError::Relocation("error: no such file".to_string())));
    assert_eq!(fix_install_name("/f", "a", "b").outcome(&bad),
        Err(BundleError::Relocation("error: no such file".to_string())));
    assert_eq!(sign_binary("/f").outcome(&bad), Err(BundleError::Signing("/f".to_string())));
}

#[test]
fn run_path_that_is_there_already_counts_as_added() {
    let already = failed("error: file already has LC_RPATH for: @loader_path");
    assert_eq!(add_rpath("/f", "@loader_path").outcome(&already), Ok(()));
    assert_eq!(fix_id("/f", "i").outcome(&already),
        Err(BundleError::Relocation("error: file already has LC_RPATH for: @loader_path".to_string())));
    assert_eq!(sign_binary("/f").outcome(&already), Err(BundleError::Signing("/f".to_string())));
}

fn scenario() -> Snapshot {
    let mut s = Snapshot::new();
    s.paths.record("/in/E".to_string(), file());
    s.shared_libs.record(
        "/in/E".to_string(),
        Some(listing("/in/E", &["@rpath/libA.dylib", "/usr/lib/libSystem.B.dylib"])),
    );
    s.load_commands.record(
        "/in/E".to_string(),
        Some(
            "/in/E:\nLoad command 9\n cmd LC_RPATH\n cmdsize 32\n path @loader_path/../lib (offset 12)\nLoad command 10\n cmd LC_RPATH\n cmdsize 32\n path @loader_path/libs (offset 12)\n"
                .to_string(),
        ),
    );
    s.paths.record("/in/../lib".to_string(), absent());
    s.paths.record("/in/libs".to_string(), dir());
    s.paths.record("/in/libs/libA.dylib".to_string(), file());
    s.shared_libs.record(
        "/in/libs/libA.dylib".to_string(),
        Some(listing("/in/libs/libA.dylib", &["/opt/old/libA.dylib", "/usr/lib/libSystem.B.dylib"])),
    );
    s
}

#[test]
fn executable_with_one_library_is_bundled() {
    let s = scenario();
    let mut e = Binary::new(&s, "/in/E".to_string(), true, true).unwrap();
    let list = e.run(&s, "/out", None).unwrap();
    assert_eq!(e.libs.len(), 1);
    let a = &e.libs[0];
    assert_eq!(a.file_path, "/in/libs/libA.dylib");
    assert_eq!(a.install_name_old, Some("@rpath/libA.dylib".to_string()));
    assert_eq!(a.install_name_id, Some("/opt/old/libA.dylib".to_string()));
    assert_eq!(a.rpath, Some("@rpath/libA.dylib".to_string()));
    assert_eq!(a.dest_file_path, Some("/out/libs/libA.dylib".to_string()));
    assert_eq!(e.rpath, None);
    assert_eq!(e.dest_file_path, Some("/out/E".to_string()));
    assert_eq!(
        list,
        vec![
            Action::CreateDir("/out".to_string()),
            Action::CopyFile { from: "/in/E".to_string(), to: "/out/E".to_string() },
            Action::CreateDir("/out/libs".to_string()),
            Action::CopyFile {
                from: "/in/libs/libA.dylib".to_string(),
                to: "/out/libs/libA.dylib".to_string(),
            },
            add_rpath("/out/E", "@loader_path/libs"),
            fix_install_name("/out/E", "@rpath/libA.dylib", "@rpath/libA.dylib"),
            fix_id("/out/libs/libA.dylib", "@rpath/libA.dylib"),
            add_rpath("/out/libs/libA.dylib", "@loader_path"),
            sign_binary("/out/E"),
            sign_binary("/out/libs/libA.dylib"),
        ]
    );
    assert!(!list.iter().any(|a| matches!(a, Action::SetId { file, .. } if file == "/out/E")));
    assert!(list.contains(&add_rpath("/out/E", "@loader_path/libs")));
}

#[test]
fn run_asks_for_what_it_needs_one_question_at_a_time() {
    let full = scenario();
    let mut known = Snapshot::new();
    known.paths.record("/in/E".to_string(), file());
    let mut asked: Vec<Query> = Vec::new();
    let list = loop {
        let mut e = Binary::new(&known, "/in/E".to_string(), true, true).unwrap();
        match e.run(&known, "/out", Some("libs")) {
            Ok(list) => break list,
            Err(BundleError::Unobserved(q)) => {
                match &q {
                    Query::Path(p) => known.paths.record(p.clone(), match full.paths.get(p) {
                        Some(st) => PathStatus {
                            exists: st.exists,
                            is_file: st.is_file,
                            link: LinkStatus::Plain,
                        },
                        None => absent(),
                    }),
                    Query::LoadCommands(p) => known
                        .load_commands
                        .record(p.clone(), full.load_commands.get(p).unwrap().clone()),
                    Query::SharedLibs(p) => known
                        .shared_libs
                        .record(p.clone(), full.shared_libs.get(p).unwrap().clone()),
                    other => panic!("unexpected question {:?}", other),
                }
                asked.push(q);
            },
            Err(e) => panic!("unexpected failure {:?}", e),
        }
    };
    assert_eq!(
        asked,
        vec![
            Query::SharedLibs("/in/E".to_string()),
            Query::LoadCommands("/in/E".to_string()),
            Query::Path("/in/../lib".to_string()),
            Query::Path("/in/libs".to_string()),
            Query::Path("/in/libs/libA.dylib".to_string()),
            Query::SharedLibs("/in/libs/libA.dylib".to_string()),
        ]
    );
    let mut e = Binary::new(&full, "/in/E".to_string(), true, true).unwrap();
    assert_eq!(e.run(&full, "/out", None), Ok(list));
}

#[test]
fn failure_of_a_pass_ends_the_run() {
    let mut s = scenario();
    s.shared_libs.record("/in/libs/libA.dylib".to_string(), None);
    let mut e = Binary::new(&s, "/in/E".to_string(), true, true).unwrap();
    assert_eq!(e.run(&s, "/out", None),
        Err(BundleError::ToolsetInvocation("/in/libs/libA.dylib".to_string())));
}

#[test]
fn shared_dependency_is_copied_and_signed_for_each_reference() {
    let mut s = Snapshot::new();
    for (p, lines) in [
        ("/in/E", vec!["/l/libB.dylib", "/l/libC.dylib"]),
        ("/l/libB.dylib", vec!["/l/libB.dylib", "/l/libD.dylib"]),
        ("/l/libC.dylib", vec!["/l/libC.dylib", "/l/libD.dylib"]),
        ("/l/libD.dylib", vec!["/l/libD.dylib"]),
    ] {
        s.paths.record(p.to_string(), file());
        s.shared_libs.record(p.to_string(), Some(listing(p, &lines)));
    }
    let mut e = Binary::new(&s, "/in/E".to_string(), true, true).unwrap();
    let list = e.run(&s, "/out", None).unwrap();
    let copies = list
        .iter()
        .filter(|a| matches!(a, Action::CopyFile { to, .. } if to == "/out/libs/libD.dylib"))
        .count();
    let signatures = list.iter().filter(|a| **a == sign_binary("/out/libs/libD.dylib")).count();
    assert_eq!(copies, 2);
    assert_eq!(signatures, 2);
    assert!(!list.iter().any(|a| matches!(a, Action::CopyFile { from, .. } if from.starts_with("/usr/lib"))));
}

fn scenario_with_types() -> Snapshot {
    let mut s = scenario();
    s.file_types.record("/in/E".to_string(), Some("/in/E: Mach-O 64-bit executable arm64\n".to_string()));
    s.paths.record("/out".to_string(), dir());
    s
}

#[test]
fn output_directory_is_made_on_demand_only() {
    let mut s = Snapshot::new();
    assert_eq!(prepare_output(&s, "/out", true),
        Err(BundleError::Unobserved(Query::Path("/out".to_string()))));
    s.paths.record("/out".to_string(), dir());
    assert_eq!(prepare_output(&s, "/out", false), Ok(vec![]));
    assert_eq!(prepare_output(&s, "/out", true), Ok(vec![]));
    s.paths.record("/out".to_string(), file());
    assert_eq!(prepare_output(&s, "/out", true), Err(BundleError::Path("/out".to_string())));
    assert_eq!(prepare_output(&s, "/out", false), Err(BundleError::Path("/out".to_string())));
    s.paths.record("/out".to_string(), absent());
    assert_eq!(prepare_output(&s, "/out", true), Ok(vec![Action::CreateDir("/out".to_string())]));
    assert_eq!(prepare_output(&s, "/out", false), Err(BundleError::Path("/out".to_string())));
}

#[test]
fn only_executables_and_dynamic_libraries_are_bundled() {
    let mut s = Snapshot::new();
    s.paths.record("/in/x".to_string(), file());
    s.file_types.record("/in/x".to_string(), Some("Mach-O 64-bit executable arm64".to_string()));
    let e = base_binary(&s, "/in/x").unwrap();
    assert!(e.is_executable && e.is_base);
    assert_eq!(e.file_path, "/in/x");
    s.file_types.record(
        "/in/x".to_string(),
        Some("Mach-O 64-bit dynamically linked shared library arm64".to_string()),
    );
    let l = base_binary(&s, "/in/x").unwrap();
    assert!(!l.is_executable && l.is_base);
    for other in ["current ar archive", "Mach-O 64-bit object arm64",
        "Mach-O universal binary with 2 architectures", "ASCII text"] {
        s.file_types.record("/in/x".to_string(), Some(other.to_string()));
        assert_eq!(base_binary(&s, "/in/x"), Err(BundleError::Path("/in/x".to_string())));
    }
    s.file_types.record("/in/x".to_string(), None);
    assert_eq!(base_binary(&s, "/in/x"), Err(BundleError::ToolsetInvocation("/in/x".to_string())));
    s.paths.record("/in/x".to_string(), absent());
    assert_eq!(base_binary(&s, "/in/x"), Err(BundleError::Path("/in/x".to_string())));
    s.paths.record("/in/x".to_string(), dir());
    s.file_types.record("/in/x".to_string(), Some("Mach-O 64-bit executable arm64".to_string()));
    assert_eq!(base_binary(&s, "/in/x"), Err(BundleError::Path("/in/x".to_string())));
}

#[test]
fn bundle_goes_from_paths_to_operations() {
    let mut s = scenario_with_types();
    let list = bundle(&s, "/in/E", "/out", None, false).unwrap();
    let mut e = Binary::new(&s, "/in/E".to_string(), true, true).unwrap();
    assert_eq!(e.run(&s, "/out", None), Ok(list));
    s.paths.record("/out".to_string(), absent());
    let made = bundle(&s, "/in/E", "/out", Some("Frameworks"), true).unwrap();
    assert_eq!(made[0], Action::CreateDir("/out".to_string()));
    assert_eq!(made.len(), 11);
    assert!(made.contains(&add_rpath("/out/E", "@loader_path/Frameworks")));
    assert!(made.contains(&fix_id("/out/Frameworks/libA.dylib", "@rpath/libA.dylib")));
    assert_eq!(bundle(&s, "/in/E", "/out", None, false), Err(BundleError::Path("/out".to_string())));
}

#[test]
fn file_is_copied_only_where_nothing_is_there() {
    let copy = Action::CopyFile { from: "/a".to_string(), to: "/b".to_string() };
    assert!(copy.is_due(false));
    assert!(!copy.is_due(true));
    for a in [
        Action::CreateDir("/d".to_string()),
        fix_id("/f", "i"),
        add_rpath("/f", "r"),
        fix_install_name("/f", "a", "b"),
        sign_binary("/f"),
    ] {
        assert!(a.is_due(true));
        assert!(a.is_due(false));
    }
}

#[test]
fn operation_names_the_path_it_writes_to() {
    assert_eq!(Action::CreateDir("/d".to_string()).target(), "/d");
    assert_eq!(Action::CopyFile { from: "/a".to_string(), to: "/b".to_string() }.target(), "/b");
    assert_eq!(fix_id("/f", "i").target(), "/f");
    assert_eq!(add_rpath("/g", "r").target(), "/g");
    assert_eq!(fix_install_name("/h", "a", "b").target(), "/h");
    assert_eq!(sign_binary("/s").target(), "/s");
}

#[test]
fn failed_pass_leaves_the_nodes_before_the_failure_changed() {
    let mut t = node(
        "/in/E",
        true,
        true,
        vec![lib("/l/libB.dylib", vec![lib("/l/..", vec![])]), lib("/l/libC.dylib", vec![])],
    );
    assert_eq!(t.change_install_names_as_rpath(), Err(BundleError::Path("/l/..".to_string())));
    assert_eq!(t.rpath, None);
    assert_eq!(t.libs[0].rpath, Some("@rpath/libB.dylib".to_string()));
    assert_eq!(t.libs[0].libs[0].rpath, None);
    assert_eq!(t.libs[1].rpath, None);
    assert_eq!(t.libs[1].file_path, "/l/libC.dylib");
    assert_eq!(t.libs.len(), 2);
}

#[test]
fn failed_placement_leaves_the_nodes_before_the_failure_placed() {
    let mut t = sample_tree();
    t.set_dest_folder("/out");
    t.libs[0].libs[0].file_path = "..".to_string();
    assert_eq!(t.copy_to_dest(), Err(BundleError::Path("..".to_string())));
    assert_eq!(t.dest_file_path, Some("/out/E".to_string()));
    assert_eq!(t.libs[0].dest_file_path, Some("/out/libs/libB.dylib".to_string()));
    assert_eq!(t.libs[0].libs[0].dest_file_path, None);
    assert_eq!(t.libs[0].libs[0].libs[0].dest_file_path, None);
    assert_eq!(t.libs[1].dest_file_path, None);
}

#[test]
fn failed_run_leaves_the_tree_as_far_as_it_came() {
    let mut s = scenario();
    s.shared_libs.record("/in/libs/libA.dylib".to_string(), None);
    let mut e = Binary::new(&s, "/in/E".to_string(), true, true).unwrap();
    assert_eq!(e.run(&s, "/out", None),
        Err(BundleError::ToolsetInvocation("/in/libs/libA.dylib".to_string())));
    assert_eq!(e.libs.len(), 1);
    assert_eq!(e.libs[0].file_path, "/in/libs/libA.dylib");
    assert_eq!(e.libs[0].install_name_id, None);
    assert!(e.libs[0].libs.is_empty());
    assert_eq!(e.rpath, None);
    assert_eq!(e.libs_path, None);
    assert_eq!(e.dest_folder_path, None);
}
