use reconf::error::Error;
use reconf::paths::{append_ext, extension, file_name, file_stem, join_under, path_is_absolute, str_eq, strip_root, FsView};
use reconf::relative_path::{base_for_root, resolve_ref, resolve_path_vec, Dir, RelativePath};

fn view_with(paths: &[&str]) -> FsView {
    let mut fs = FsView::empty();
    for p in paths {
        fs.record(p.to_string());
    }
    fs
}

#[test]
fn absolute_existing_path_resolves_to_itself() {
    // Resolution idempotence: an already-absolute, existing path comes back
    // unchanged, whatever the base directory or extension.
    let fs = view_with(&["/etc/motd"]);
    let r = resolve_ref("/etc/motd", Dir::Modules, "rhai", "/home/u/.config", &fs);
    assert_eq!(r.unwrap(), "/etc/motd");
}

#[test]
fn extension_fallback_finds_suffixed_file() {
    // Only R/foo.rhai exists: resolving "foo" returns it.
    let fs = view_with(&["/root/modules/foo.rhai"]);
    let r = resolve_ref("foo", Dir::Modules, "rhai", "/root/modules", &fs);
    assert_eq!(r.unwrap(), "/root/modules/foo.rhai");
}

#[test]
fn extension_fallback_fails_when_neither_exists() {
    // Neither R/foo nor R/foo.rhai exists: resolution fails, naming the
    // category and the last attempted path.
    let fs = view_with(&["/root/modules/other.rhai"]);
    let r = resolve_ref("foo", Dir::Modules, "rhai", "/root/modules", &fs);
    match r {
        Err(Error::NotFound(kind, attempted)) => {
            assert_eq!(kind, "module");
            assert_eq!(attempted, "/root/modules/foo.rhai");
        }
        other => panic!("expected NotFound, got {:?}", other),
    }
}

#[test]
fn no_double_append_of_canonical_extension() {
    // "foo.ext" with canonical extension "ext" fails immediately when the
    // bare path is missing: "foo.ext.ext" is never tried.
    let fs = view_with(&["/root/modules/foo.ext.ext"]);
    let r = resolve_ref("foo.ext", Dir::Modules, "ext", "/root/modules", &fs);
    match r {
        Err(Error::NotFound(kind, attempted)) => {
            assert_eq!(kind, "module");
            assert_eq!(attempted, "/root/modules/foo.ext");
        }
        other => panic!("expected NotFound, got {:?}", other),
    }
}

#[test]
fn bare_path_wins_over_suffixed_when_it_exists() {
    let fs = view_with(&["/root/templates/page", "/root/templates/page.hbs"]);
    let r = resolve_ref("page", Dir::Templates, "hbs", "/root/templates", &fs);
    assert_eq!(r.unwrap(), "/root/templates/page");
}

#[test]
fn extension_is_appended_after_an_existing_one() {
    // "foo.tmpl" with canonical "hbs" tries "foo.tmpl.hbs".
    let fs = view_with(&["/root/templates/foo.tmpl.hbs"]);
    let r = resolve_ref("foo.tmpl", Dir::Templates, "hbs", "/root/templates", &fs);
    assert_eq!(r.unwrap(), "/root/templates/foo.tmpl.hbs");
}

#[test]
fn relative_path_resolve_matches_free_function() {
    let fs = view_with(&["/base/helpers/up.rhai"]);
    let rp = RelativePath::new("up".to_string());
    assert_eq!(rp.path(), "up");
    let r = rp.resolve(Dir::Helpers, "rhai", "/base/helpers", &fs);
    assert_eq!(r.unwrap(), "/base/helpers/up.rhai");
}

#[test]
fn resolve_path_vec_resolves_in_order() {
    let fs = view_with(&["/b/a.rhai", "/b/c.rhai"]);
    let refs = vec!["a".to_string(), "c".to_string()];
    let r = resolve_path_vec(&refs, Dir::Modules, "rhai", "/b", &fs).unwrap();
    assert_eq!(r, vec!["/b/a.rhai".to_string(), "/b/c.rhai".to_string()]);
}

#[test]
fn resolve_path_vec_stops_at_first_failure() {
    let fs = view_with(&["/b/a.rhai"]);
    let refs = vec!["a".to_string(), "missing".to_string()];
    let r = resolve_path_vec(&refs, Dir::Modules, "rhai", "/b", &fs);
    match r {
        Err(Error::NotFound(kind, attempted)) => {
            assert_eq!(kind, "module");
            assert_eq!(attempted, "/b/missing.rhai");
        }
        other => panic!("expected NotFound, got {:?}", other),
    }
}

#[test]
fn dir_strings_are_exact() {
    assert_eq!(Dir::Helpers.path_str(), "helpers");
    assert_eq!(Dir::Modules.path_str(), "modules");
    assert_eq!(Dir::Profiles.path_str(), "profiles");
    assert_eq!(Dir::Templates.path_str(), "templates");
    assert_eq!(Dir::Config.path_str(), ".");
    assert_eq!(Dir::Helpers.ext_str(), "rhai");
    assert_eq!(Dir::Modules.ext_str(), "rhai");
    assert_eq!(Dir::Profiles.ext_str(), "toml");
    assert_eq!(Dir::Templates.ext_str(), "hbs");
    assert_eq!(Dir::Config.ext_str(), "");
    assert_eq!(Dir::Helpers.component_str(), "helper");
    assert_eq!(Dir::Modules.component_str(), "module");
    assert_eq!(Dir::Profiles.component_str(), "profile");
    assert_eq!(Dir::Templates.component_str(), "template");
    assert_eq!(Dir::Config.component_str(), "internal");
}

#[test]
fn base_for_root_joins_under_reconf() {
    assert_eq!(base_for_root("/home/u/.config", Dir::Modules), "/home/u/.config/reconf/modules");
    assert_eq!(base_for_root("/home/u/.config", Dir::Config), "/home/u/.config/reconf/.");
}

#[test]
fn as_base_uses_platform_config_root() {
    match Dir::Profiles.as_base() {
        Ok(b) => assert!(b.ends_with("/reconf/profiles")),
        Err(e) => assert!(matches!(e, Error::NoConfigDir)),
    }
}

#[test]
fn path_string_helpers() {
    assert!(path_is_absolute("/a/b"));
    assert!(!path_is_absolute("a/b"));
    assert!(!path_is_absolute(""));
    assert_eq!(join_under("/base", "x/y"), "/base/x/y");
    assert_eq!(append_ext("foo.tmpl", "hbs"), "foo.tmpl.hbs");
    assert_eq!(append_ext("foo", "rhai"), "foo.rhai");
    assert_eq!(strip_root("/etc/motd"), "etc/motd");
    assert_eq!(strip_root("etc/motd"), "etc/motd");
    assert!(str_eq("abc", "abc"));
    assert!(!str_eq("abc", "abd"));
    assert!(!str_eq("abc", "ab"));
}

#[test]
fn file_name_stem_and_extension() {
    assert_eq!(file_name("/a/b/c.txt"), "c.txt");
    assert_eq!(file_name("c.txt"), "c.txt");
    assert_eq!(file_name("/a/b/"), "");
    assert_eq!(extension("/a/b/c.txt"), Some("txt"));
    assert_eq!(extension("/a/b/c"), None);
    assert_eq!(extension("/a/b/.bashrc"), None);
    assert_eq!(extension("/a/b/c.tar.gz"), Some("gz"));
    assert_eq!(file_stem("/a/b/c.txt"), Some("c"));
    assert_eq!(file_stem("/a/b/.bashrc"), Some(".bashrc"));
    assert_eq!(file_stem("/a/b/"), None);
    assert_eq!(file_stem("c.tar.gz"), Some("c.tar"));
}
