use stnx::codegen::externals::{
    artifact_candidates, external_kind_name, has_python, needs_artifact, python_dir_flags, python_lib_from_ldflags,
    python_link_flags, split_words, unresolved_external, ExternalLibrary, MirExternalKind, SearchDir,
};
use stnx::codegen::linker::{describe_env, describe_os, Linker};
use stnx::config::{default_edition, default_version, DependencySpec, Package, SaturnConfig};
use stnx::driver::resolve_output;
use stnx::target::{Environment, OperatingSystem, OutputKind, Profile, TargetConfig};

fn cfg(os: OperatingSystem, environment: Environment) -> TargetConfig {
    TargetConfig { os, environment }
}

#[test]
fn linker_selection() {
    let c = cfg(OperatingSystem::Linux, Environment::Gnu);
    let l = Linker::new(&c);
    assert_eq!(l.select_linker(&OperatingSystem::Linux, &Environment::Gnu), vec!["cc"]);
    assert_eq!(l.select_linker(&OperatingSystem::Darwin, &Environment::Unknown), vec!["clang"]);
    assert_eq!(l.select_linker(&OperatingSystem::Windows, &Environment::Msvc), vec!["link.exe"]);
    assert_eq!(l.select_linker(&OperatingSystem::Windows, &Environment::Gnu), vec!["gcc"]);
    assert_eq!(l.select_linker(&OperatingSystem::FreeBSD, &Environment::Musl), vec!["cc"]);
}

#[test]
fn linker_arguments() {
    let c = cfg(OperatingSystem::Linux, Environment::Gnu);
    let l = Linker::new(&c);
    assert_eq!(
        l.build_linker_args(&OperatingSystem::Linux, &Environment::Gnu, "a.o", "a", "rt.a"),
        vec!["a.o", "-o", "a", "rt.a", "-no-pie"]
    );
    assert_eq!(
        l.build_linker_args(&OperatingSystem::Windows, &Environment::Msvc, "a.obj", "a.exe", "rt.lib"),
        vec!["a.obj", "/OUT:a.exe", "/DEFAULTLIB:rt.lib"]
    );
    assert_eq!(
        l.build_linker_args(&OperatingSystem::Windows, &Environment::Musl, "a.obj", "a.exe", "rt.lib"),
        vec!["a.obj", "/OUT:a.exe", "rt.lib"]
    );
    assert_eq!(
        l.build_linker_args(&OperatingSystem::Windows, &Environment::Gnu, "a.o", "a.exe", "rt.a"),
        vec!["a.o", "-o", "a.exe", "rt.a", "-no-pie"]
    );
}

#[test]
fn platform_descriptions() {
    assert_eq!(describe_os(&OperatingSystem::Darwin), "macOS");
    assert_eq!(describe_os(&OperatingSystem::FreeBSD), "FreeBSD");
    assert_eq!(describe_env(&Environment::Msvc), "MSVC");
    assert_eq!(describe_env(&Environment::Musl), "Musl");
}

#[test]
fn target_config_accessors() {
    let c = cfg(OperatingSystem::Windows, Environment::Msvc);
    assert_eq!(*c.os(), OperatingSystem::Windows);
    assert_eq!(*c.environment(), Environment::Msvc);
}

#[test]
fn config_defaults() {
    assert_eq!(default_version(), "0.1.0");
    assert_eq!(default_edition(), "2026");
    let p = Package::default();
    assert_eq!(p.name, "untitled");
    assert_eq!(p.version, "0.1.0");
    assert_eq!(p.edition, "2026");
    let c = SaturnConfig::default();
    assert_eq!(c.package.name, "untitled");
    assert!(c.dependencies.is_empty());
}

#[test]
fn dependency_spec_from_str() {
    let d: DependencySpec = "1.2".parse().unwrap();
    assert_eq!(d.version, "1.2");
}

#[test]
fn manifest_text_for_name() {
    assert_eq!(
        SaturnConfig::manifest_text("demo"),
        "[package]\nname = \"demo\"\nversion = \"0.1.0\"\nedition = \"2026\"\n"
    );
}

fn s(x: &str) -> Option<String> {
    Some(x.to_string())
}

#[test]
fn output_defaults_to_target_dir() {
    assert_eq!(
        resolve_output(s("main"), None, Profile::Debug, None, None, None, None, false),
        ("target/debug/main".to_string(), OutputKind::Exe)
    );
    assert_eq!(
        resolve_output(s("main"), None, Profile::Release, s("pkg"), None, None, None, true),
        ("target/release/pkg.o".to_string(), OutputKind::Object)
    );
    assert_eq!(
        resolve_output(None, None, Profile::Debug, None, None, None, None, false),
        ("target/debug/out".to_string(), OutputKind::Exe)
    );
}

#[test]
fn output_explicit_paths_win_in_order() {
    assert_eq!(
        resolve_output(s("m"), s("o"), Profile::Debug, None, s("x.ll"), s("x.o"), s("x"), false),
        ("x.ll".to_string(), OutputKind::Ir)
    );
    assert_eq!(
        resolve_output(s("m"), s("o"), Profile::Debug, None, None, s("x.o"), s("x"), false),
        ("x.o".to_string(), OutputKind::Object)
    );
    assert_eq!(
        resolve_output(s("m"), s("o"), Profile::Debug, None, None, None, None, true),
        ("o".to_string(), OutputKind::Object)
    );
    assert_eq!(
        resolve_output(s("m"), s("o"), Profile::Debug, None, None, None, None, false),
        ("o".to_string(), OutputKind::Exe)
    );
}

#[test]
fn profile_names() {
    assert_eq!(Profile::default(), Profile::Debug);
    assert_eq!(Profile::Release.as_str(), "release");
}


fn lib(name: &str, kind: MirExternalKind) -> ExternalLibrary {
    ExternalLibrary { name: name.to_string(), kind }
}

#[test]
fn rust_library_candidates_include_nested_build_outputs() {
    let c = artifact_candidates(&lib("mylib", MirExternalKind::Rust), OperatingSystem::Linux);
    assert_eq!(c.len(), 10);
    assert_eq!((c[0].dir, c[0].nested, c[0].file.as_str()), (SearchDir::OutputDir, false, "libmylib.a"));
    assert_eq!((c[1].dir, c[1].nested, c[1].file.as_str()), (SearchDir::OutputDir, true, "libmylib.a"));
    assert_eq!((c[2].dir, c[2].nested), (SearchDir::WorkingDir, false));
    assert_eq!((c[9].dir, c[9].nested), (SearchDir::UsrLocalLib, true));
}

#[test]
fn native_library_candidates_depend_on_the_platform() {
    let mac = artifact_candidates(&lib("z", MirExternalKind::Native), OperatingSystem::Darwin);
    assert_eq!(mac.len(), 10);
    assert_eq!(mac[0].file, "libz.dylib");
    assert_eq!(mac[1].file, "libz.so");
    assert_eq!(mac[2].dir, SearchDir::WorkingDir);
    assert!(mac.iter().all(|c| !c.nested));
    let linux = artifact_candidates(&lib("z", MirExternalKind::Native), OperatingSystem::Linux);
    assert_eq!(linux.len(), 5);
    assert_eq!(linux[4].dir, SearchDir::UsrLocalLib);
    assert_eq!(linux[4].file, "libz.so");
}

#[test]
fn python_libraries_need_no_artifact() {
    assert!(artifact_candidates(&lib("np", MirExternalKind::Python), OperatingSystem::Linux).is_empty());
    assert!(!needs_artifact(MirExternalKind::Python));
    assert!(needs_artifact(MirExternalKind::Native));
    assert!(has_python(&[lib("a", MirExternalKind::Rust), lib("np", MirExternalKind::Python)]));
    assert!(!has_python(&[lib("a", MirExternalKind::Rust)]));
    assert_eq!(external_kind_name(MirExternalKind::Native), "native");
}

#[test]
fn unresolved_external_lists_the_searched_paths() {
    let e = unresolved_external(
        "out/app".to_string(),
        &lib("mylib", MirExternalKind::Rust),
        &["out/libmylib.a".to_string(), "/usr/local/lib/libmylib.a".to_string()],
    );
    assert_eq!(e.message, "linking failed for output: out/app");
    assert_eq!(
        e.details.as_deref(),
        Some("cannot resolve external rust library 'mylib'.\nSearched:\n  out/libmylib.a\n  /usr/local/lib/libmylib.a\n")
    );
}

#[test]
fn python_flags_are_read_from_ldflags() {
    let flags = " -L/opt/py/lib  -lpython3.12 -ldl\t-L -lm\n";
    assert_eq!(split_words(flags), vec!["-L/opt/py/lib", "-lpython3.12", "-ldl", "-L", "-lm"]);
    assert_eq!(python_lib_from_ldflags(flags), Some("python3.12".to_string()));
    assert_eq!(python_lib_from_ldflags("-L/x -Wl,-rpath"), None);
    assert_eq!(python_dir_flags(flags), vec!["-L/opt/py/lib".to_string()]);
    assert_eq!(python_link_flags("python3.13"), vec!["-lpython3.13", "-lpthread", "-ldl", "-lutil", "-lm"]);
}

#[test]
fn link_and_target_errors_display_their_message() {
    let e = stnx::error::LinkError::linker_not_found("cc".to_string());
    assert!(e.to_string().starts_with("link error: "));
    assert_eq!(e.to_string(), format!("link error: {}", e.message));
    let t = stnx::error::TargetError::target_lookup_failed("x86".to_string(), "nope".to_string());
    assert_eq!(t.to_string(), format!("target error: {}", t.message));
}
