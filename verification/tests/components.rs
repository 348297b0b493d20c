use reconf::component::{add, rm};
use reconf::error::Error;
use reconf::profile::ProfileDataInner;
use reconf::relative_path::Dir;

fn sample_data() -> ProfileDataInner {
    ProfileDataInner {
        name: "work".to_string(),
        modules: vec!["a.rhai".to_string(), "b".to_string()],
        helpers: vec![],
        templates: vec![],
    }
}

fn strings(v: &[&str]) -> Vec<String> {
    v.iter().map(|s| s.to_string()).collect()
}

#[test]
fn add_appends_the_original_spelling() {
    let mut data = sample_data();
    let resolved = strings(&["/r/modules/a.rhai", "/r/modules/b.rhai"]);
    let r = add(
        &mut data,
        Dir::Modules,
        &resolved,
        &"./c".to_string(),
        &"/r/modules/c.rhai".to_string(),
        &"/r/profiles/work.toml".to_string(),
    );
    assert!(r.is_ok());
    assert_eq!(data.modules, strings(&["a.rhai", "b", "./c"]));
    assert_eq!(data.name, "work");
    assert!(data.helpers.is_empty());
}

#[test]
fn add_rejects_spelling_that_resolves_to_used_path() {
    // Add uniqueness: a second spelling resolving to an absolute path that
    // an entry already resolves to is refused as already used.
    let mut data = sample_data();
    let resolved = strings(&["/r/modules/a.rhai", "/r/modules/b.rhai"]);
    let r = add(
        &mut data,
        Dir::Modules,
        &resolved,
        &"./a".to_string(),
        &"/r/modules/a.rhai".to_string(),
        &"/r/profiles/work.toml".to_string(),
    );
    match r {
        Err(Error::UsedProfVal(kind, value, profile)) => {
            assert_eq!(kind, "module");
            assert_eq!(value, "/r/modules/a.rhai");
            assert_eq!(profile, "/r/profiles/work.toml");
        }
        other => panic!("expected UsedProfVal, got {:?}", other),
    }
    assert_eq!(data.modules, strings(&["a.rhai", "b"]));
}

#[test]
fn add_after_add_of_same_target_is_refused() {
    // Two different relative spellings of one file: the first add goes
    // through, the second fails with "already used".
    let mut data = ProfileDataInner {
        name: "p".to_string(),
        modules: vec![],
        helpers: vec![],
        templates: vec![],
    };
    let profile = "/r/profiles/p.toml".to_string();
    let target = "/r/modules/same.rhai".to_string();
    let first = add(&mut data, Dir::Modules, &vec![], &"same".to_string(), &target, &profile);
    assert!(first.is_ok());
    let resolved = vec![target.clone()];
    let second = add(&mut data, Dir::Modules, &resolved, &"./same.rhai".to_string(), &target, &profile);
    assert!(matches!(second, Err(Error::UsedProfVal(_, _, _))));
    assert_eq!(data.modules, strings(&["same"]));
}

#[test]
fn add_detects_corrupted_profile() {
    // Two existing entries that resolve to the same path are corruption,
    // reported before the new reference is considered.
    let mut data = sample_data();
    let resolved = strings(&["/r/modules/x.rhai", "/r/modules/x.rhai"]);
    let r = add(
        &mut data,
        Dir::Modules,
        &resolved,
        &"c".to_string(),
        &"/r/modules/c.rhai".to_string(),
        &"/r/profiles/work.toml".to_string(),
    );
    match r {
        Err(Error::DupeProfVal(kind, value, profile)) => {
            assert_eq!(kind, "module");
            assert_eq!(value, "/r/modules/x.rhai");
            assert_eq!(profile, "/r/profiles/work.toml");
        }
        other => panic!("expected DupeProfVal, got {:?}", other),
    }
    assert_eq!(data.modules, strings(&["a.rhai", "b"]));
}

#[test]
fn rm_removes_matching_entry_by_position() {
    let mut data = sample_data();
    let resolved = strings(&["/r/modules/a.rhai", "/r/modules/b.rhai"]);
    let r = rm(
        &mut data,
        Dir::Modules,
        &resolved,
        &"/r/modules/a.rhai".to_string(),
        &"/r/profiles/work.toml".to_string(),
    );
    assert!(r.is_ok());
    assert_eq!(data.modules, strings(&["b"]));
}

#[test]
fn rm_detects_corruption_before_applying_match() {
    // Entries "a.rhai" and "./a" pointing at the same file: removal reports
    // corruption and removes nothing, though a match exists.
    let mut data = ProfileDataInner {
        name: "p".to_string(),
        modules: strings(&["a.rhai", "./a"]),
        helpers: vec![],
        templates: vec![],
    };
    let resolved = strings(&["/r/modules/a.rhai", "/r/modules/a.rhai"]);
    let r = rm(
        &mut data,
        Dir::Modules,
        &resolved,
        &"/r/modules/a.rhai".to_string(),
        &"/r/profiles/p.toml".to_string(),
    );
    match r {
        Err(Error::DupeProfVal(kind, value, profile)) => {
            assert_eq!(kind, "module");
            assert_eq!(value, "/r/modules/a.rhai");
            assert_eq!(profile, "/r/profiles/p.toml");
        }
        other => panic!("expected DupeProfVal, got {:?}", other),
    }
    assert_eq!(data.modules, strings(&["a.rhai", "./a"]));
}

#[test]
fn rm_reports_value_not_in_profile() {
    let mut data = sample_data();
    let resolved = strings(&["/r/modules/a.rhai", "/r/modules/b.rhai"]);
    let r = rm(
        &mut data,
        Dir::Modules,
        &resolved,
        &"/r/modules/zzz.rhai".to_string(),
        &"/r/profiles/work.toml".to_string(),
    );
    match r {
        Err(Error::NotInProfile(kind, value, profile)) => {
            assert_eq!(kind, "module");
            assert_eq!(value, "/r/modules/zzz.rhai");
            assert_eq!(profile, "/r/profiles/work.toml");
        }
        other => panic!("expected NotInProfile, got {:?}", other),
    }
    assert_eq!(data.modules, strings(&["a.rhai", "b"]));
}

#[test]
fn add_works_on_helpers_and_templates_too() {
    let mut data = sample_data();
    let r = add(
        &mut data,
        Dir::Helpers,
        &vec![],
        &"greet".to_string(),
        &"/r/helpers/greet.rhai".to_string(),
        &"/r/profiles/work.toml".to_string(),
    );
    assert!(r.is_ok());
    assert_eq!(data.helpers, strings(&["greet"]));
    let r = add(
        &mut data,
        Dir::Templates,
        &vec![],
        &"page".to_string(),
        &"/r/templates/page.hbs".to_string(),
        &"/r/profiles/work.toml".to_string(),
    );
    assert!(r.is_ok());
    assert_eq!(data.templates, strings(&["page"]));
    assert_eq!(data.modules, strings(&["a.rhai", "b"]));
}

#[test]
fn error_messages_are_worded() {
    let e = Error::NotFound("module".to_string(), "/r/modules/foo.rhai".to_string());
    assert_eq!(e.message(), "could not find module /r/modules/foo.rhai");
    let e = Error::NoConfigDir;
    assert_eq!(e.message(), "could not find config directory with XDG lookup");
    let e = Error::TemplateTwice("/etc/app.conf".to_string());
    assert_eq!(e.message(), "attempted to template /etc/app.conf after already templating");
    let e = Error::UsedProfVal("module".to_string(), "/m/a.rhai".to_string(), "/p/w.toml".to_string());
    assert_eq!(e.message(), "module /m/a.rhai is already used in profile /p/w.toml");
    let e = Error::DupeProfVal("helper".to_string(), "/h/x.rhai".to_string(), "/p/w.toml".to_string());
    assert_eq!(e.message(), "helper /h/x.rhai is used twice in profile /p/w.toml");
    let e = Error::NotInProfile("template".to_string(), "/t/p.hbs".to_string(), "/p/w.toml".to_string());
    assert_eq!(e.message(), "template /t/p.hbs is not in profile /p/w.toml");
    let e = Error::SettingNotFound("editor".to_string(), "/p/w.toml".to_string());
    assert_eq!(e.message(), "there is no setting with the name editor in the profile /p/w.toml");
    let e = Error::NoEmptyFileName;
    assert_eq!(e.message(), "file names must not be empty");
}
