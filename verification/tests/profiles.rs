use ets2_tool::models::SaveKind;
use ets2_tool::profile::{
    change_profile_name_in_sii, describe_profile, describe_save, extract_profile_name,
    extract_save_name, ProfileError, Summary,
};
use ets2_tool::profile_clone::{
    extract_mods, inject_mods, replace_all, replace_identifiers, validate_clone_target,
    CloneOptions, ModsError,
};

const PROFILE: &str = "SiiNunit\r\n{\r\nuser_profile : _nameless.1 {\r\n face: 3\r\n profile_name: \"Max\"\r\n active_mods: 2\r\n active_mods[0]: \"mod_a|Mod \\\"A\\\"\"\r\n active_mods[1]: \"mod_b|Mod B\"\r\n company_name: \"Max Cargo\"\r\n}\r\n}\r\n";

#[test]
fn profile_name_is_read() {
    assert_eq!(extract_profile_name(PROFILE.as_bytes()), Some(b"Max".to_vec()));
    assert_eq!(extract_profile_name(b"\tprofile_name: \"A B\" x \"C\"\n"), Some(b"A B".to_vec()));
    assert_eq!(extract_profile_name(b"profile_name: \"open\r\nx"), Some(b"open".to_vec()));
    assert_eq!(extract_profile_name(b"profile_name: bare\nprofile_name: \"x\""), None);
    assert_eq!(extract_profile_name(b"my profile_name: \"x\""), None);
    assert_eq!(extract_profile_name(b""), None);
}

#[test]
fn profile_is_renamed() {
    let out = change_profile_name_in_sii(PROFILE.as_bytes(), b"Moritz").unwrap();
    assert_eq!(
        String::from_utf8(out).unwrap(),
        PROFILE.replace(" profile_name: \"Max\"", " profile_name: \"Moritz\"")
    );
    assert_eq!(
        change_profile_name_in_sii(b"a\n  profile_name: x\nb", b"N"),
        Ok(b"a\r\n profile_name: \"N\"\r\nb\r\n".to_vec())
    );
    assert_eq!(
        change_profile_name_in_sii(b"a\nb\n", b"N"),
        Err(ProfileError::NameNotFound)
    );
    assert_eq!(change_profile_name_in_sii(b"", b"N"), Err(ProfileError::NameNotFound));
}

#[test]
fn save_name_is_read() {
    assert_eq!(extract_save_name(b" name: \"Langer Test\"\n"), Some(b"Langer Test".to_vec()));
    assert_eq!(extract_save_name(b" name: test two\n"), Some(b"test".to_vec()));
    assert_eq!(extract_save_name(b" name: \"\"\n"), Some(b"\"\"".to_vec()));
    assert_eq!(extract_save_name(b" name: \"open\n"), Some(b"\"open".to_vec()));
    assert_eq!(extract_save_name(b" title: x\n"), None);
}

#[test]
fn saves_are_described() {
    let s = describe_save(b"/p/save/3", b"3", Summary::Text(b" name: \"Trip\"\n".to_vec())).unwrap();
    assert_eq!(s.path, b"/p/save/3".to_vec());
    assert_eq!(s.folder, b"3".to_vec());
    assert_eq!(s.name, Some(b"Trip".to_vec()));
    assert!(s.success);
    assert_eq!(s.message, None);
    assert_eq!(s.kind, SaveKind::Manual);

    let s = describe_save(b"/p/save/autosave", b"autosave", Summary::Text(b"x".to_vec())).unwrap();
    assert_eq!(s.name, None);
    assert!(!s.success);
    assert_eq!(s.message, Some(b"Kein Save-Name gefunden".to_vec()));
    assert_eq!(s.kind, SaveKind::Invalid);

    let s = describe_save(b"/p/save/1", b"1", Summary::Missing).unwrap();
    assert_eq!(s.message, Some(b"info.sii fehlt".to_vec()));
    assert_eq!(s.kind, SaveKind::Invalid);

    let s = describe_save(b"/p/save/1", b"1", Summary::Unreadable(b"denied".to_vec())).unwrap();
    assert_eq!(s.message, Some(b"denied".to_vec()));
    assert!(!s.success);

    assert!(describe_save(b"/p/save/tmp", b"tmp", Summary::Missing).is_none());
}

#[test]
fn every_occurrence_is_replaced() {
    assert_eq!(replace_all(b"aXbXc", b"X", b"--"), b"a--b--c".to_vec());
    assert_eq!(replace_all(b"aaa", b"aa", b"b"), b"ba".to_vec());
    assert_eq!(replace_all(b"abc", b"", b"x"), b"abc".to_vec());
    assert_eq!(replace_all(b"abc", b"abcd", b"x"), b"abc".to_vec());
    assert_eq!(replace_all(b"", b"a", b"x"), Vec::<u8>::new());
    for (s, from, to) in [("Max und Max", "Max", "Mo"), ("xxxx", "xx", "x"), ("a.b", ".", "..")] {
        assert_eq!(replace_all(s.as_bytes(), from.as_bytes(), to.as_bytes()), s.replace(from, to).into_bytes());
    }
}

#[test]
fn identifiers_are_replaced_as_the_options_say() {
    let content = b"name Max hex 4D6178 end";
    let all = CloneOptions { backup: false, replace_hex: true, replace_text: true };
    let text = CloneOptions { backup: false, replace_hex: false, replace_text: true };
    let hex = CloneOptions { backup: true, replace_hex: true, replace_text: false };
    let none = CloneOptions { backup: false, replace_hex: false, replace_text: false };
    assert_eq!(replace_identifiers(content, b"Max", b"Mo", all), b"name Mo hex 4D6F end".to_vec());
    assert_eq!(replace_identifiers(content, b"Max", b"Mo", text), b"name Mo hex 4D6178 end".to_vec());
    assert_eq!(replace_identifiers(content, b"Max", b"Mo", hex), b"name Max hex 4D6F end".to_vec());
    assert_eq!(replace_identifiers(content, b"Max", b"Mo", none), content.to_vec());
}

#[test]
fn clone_targets_are_judged() {
    let s = validate_clone_target(true, "/p/4D6F".to_string(), false);
    assert!(s.valid);
    assert_eq!(s.message, "Name verfügbar.");
    assert_eq!(s.target_path, Some("/p/4D6F".to_string()));
    let s = validate_clone_target(true, "/p/4D6F".to_string(), true);
    assert!(!s.valid);
    assert_eq!(s.message, "Profilname existiert bereits.");
    assert_eq!(s.target_path, Some("/p/4D6F".to_string()));
    let s = validate_clone_target(false, "/p/4D6F".to_string(), false);
    assert!(!s.valid);
    assert_eq!(s.message, "Quellprofil existiert nicht.");
    assert_eq!(s.target_path, None);
}

#[test]
fn mods_are_read_and_carried_over() {
    let mods = extract_mods(PROFILE.as_bytes());
    assert_eq!(mods, vec![b"mod_a|Mod \\\"A\\\"".to_vec(), b"mod_b|Mod B".to_vec()]);

    let target = "x\r\n  active_mods: 1\r\n  active_mods[0]: \"old|Old\"\r\ny\r\n";
    let out = String::from_utf8(inject_mods(target.as_bytes(), &mods).unwrap()).unwrap();
    assert_eq!(
        out,
        "x\r\n  active_mods: 2\r\n  active_mods[0]: \"mod_a|Mod \\\"A\\\"\"\r\n  active_mods[1]: \"mod_b|Mod B\"\r\ny"
    );
    let out = String::from_utf8(inject_mods(b"active_mods: 5\n", &Vec::new()).unwrap()).unwrap();
    assert_eq!(out, "active_mods: 0");
    assert_eq!(inject_mods(b"a\nb\n", &mods), Err(ModsError::CountNotFound));
    assert_eq!(inject_mods(b"active_mods[0]: \"x\"\n", &mods), Err(ModsError::CountNotFound));
    assert!(extract_mods(b"active_mods: 0\n").is_empty());
}

#[test]
fn profiles_are_described() {
    let sii = b" profile_name: \"Max\"\n";
    let bak = b" profile_name: \"Old Max\"\n";
    let p = describe_profile(b"/p/4D6F", b"4D6F", None, Some(sii), Some(bak));
    assert_eq!(p.path, b"/p/4D6F".to_vec());
    assert_eq!(p.name, Some(b"Max".to_vec()));
    assert!(p.success);
    assert_eq!(p.message, Some(b"OK".to_vec()));
    assert_eq!(p.avatar, None);

    let p = describe_profile(b"/p/4D6F", b"4D6F", Some(b"pic".to_vec()), Some(b"x"), Some(bak));
    assert_eq!(p.name, Some(b"Old Max".to_vec()));
    assert_eq!(p.avatar, Some(b"pic".to_vec()));

    let p = describe_profile(b"/p/4D6F", b"4D6F", None, Some(b"x"), None);
    assert_eq!(p.name, Some(b"Mo".to_vec()));
    assert!(p.success);

    let p = describe_profile(b"/p/zz", b"zz", None, None, None);
    assert_eq!(p.name, None);
    assert!(!p.success);
    assert_eq!(p.message, Some(b"profile_name nicht gefunden".to_vec()));
}

#[test]
fn avatar_is_written_as_a_data_url() {
    assert_eq!(
        ets2_tool::profile::avatar_data_url(b"hello"),
        Some(b"data:image/png;base64,aGVsbG8=".to_vec())
    );
    assert_eq!(
        ets2_tool::profile::avatar_data_url(&[0xff, 0xfe, 0xfd, 0x00]),
        Some(b"data:image/png;base64,//79AA==".to_vec())
    );
    assert_eq!(ets2_tool::profile::avatar_data_url(b""), Some(b"data:image/png;base64,".to_vec()));
}
