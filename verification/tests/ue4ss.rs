use sbmm::ue4ss::{
    apply_states, ownership_note, ownership_of, parse, registration_states, registration_sync,
    registrations, remove_entries, render, Line, Ownership, RegistrationSync,
};

fn states(pairs: &[(&str, bool)]) -> Vec<(String, bool)> {
    pairs.iter().map(|(n, e)| (n.to_string(), *e)).collect()
}

#[test]
fn preserves_comments_and_foreign_entries() {
    let lines = parse("; my notes\nHandMade : 1\n\nOther : 0\n");
    assert_eq!(lines.len(), 4);
    assert!(matches!(lines[0], Line::Raw(_)));
    assert!(matches!(&lines[1], Line::Entry { name, enabled: true } if name == "HandMade"));
}

#[test]
fn lines_are_read_the_way_str_lines_reads_them() {
    let lines = parse("A : 1\r\n# note\r\nB:0");
    assert_eq!(
        lines,
        vec![
            Line::Entry { name: "A".into(), enabled: true },
            Line::Raw("# note".into()),
            Line::Entry { name: "B".into(), enabled: false },
        ]
    );
    assert!(parse("").is_empty());
    assert_eq!(parse("\n").len(), 1);
    assert_eq!(parse(" : 1\nnocolon\n")[0], Line::Raw(" : 1".into()));
    assert_eq!(parse(" : 1\nnocolon\n")[1], Line::Raw("nocolon".into()));
    assert_eq!(
        parse("  Spaced  :  1 extra"),
        vec![Line::Entry { name: "Spaced".into(), enabled: true }]
    );
}

#[test]
fn flips_only_the_requested_entries() {
    let lines = parse("; keep me\nUserMod : 1\nOurMod : 0\n");
    let text = render(&apply_states(&lines, &states(&[("OurMod", true)])));
    assert!(text.contains("; keep me"));
    assert!(text.contains("UserMod : 1"), "foreign entry must survive");
    assert!(text.contains("OurMod : 1"));
}

#[test]
fn appends_entries_that_are_not_yet_listed() {
    let text = render(&apply_states(&parse(""), &states(&[("BrandNew", true)])));
    assert_eq!(text, "BrandNew : 1\n");
}

#[test]
fn new_entries_come_after_the_existing_ones_in_order() {
    let lines = parse("Keep : 1\n");
    let out = apply_states(&lines, &states(&[("A", false), ("Keep", false), ("Z", true)]));
    assert_eq!(render(&out), "Keep : 0\nA : 0\nZ : 1\n");
}

#[test]
fn uninstalled_mods_lose_their_registration() {
    let lines = parse("; c\nGone : 1\nStays : 0\nGone : 0\n");
    let out = remove_entries(&lines, &["Gone".to_string()]);
    assert_eq!(render(&out), "; c\nStays : 0\n");
}

#[test]
fn registrations_are_listed_by_name_with_the_last_state_winning() {
    let lines = parse("b : 1\na : 0\nb : 0\n; x : 1\n");
    assert_eq!(
        registrations(&lines),
        vec![("a".to_string(), false), ("b".to_string(), false)]
    );
}

#[test]
fn the_ownership_note_is_read_back_as_written() {
    assert_eq!(ownership_of(Some(ownership_note(true))), Ownership::UsersOwn);
    assert_eq!(ownership_of(Some(" users-own\n")), Ownership::UsersOwn);
    assert_eq!(ownership_of(Some(ownership_note(false))), Ownership::Ours);
    assert_eq!(ownership_of(None), Ownership::Ours);
}

// ---------------------------------------------------------------------------
// What to write after applying
// ---------------------------------------------------------------------------

fn plan(names: &[&str], enabled: bool) -> (Vec<String>, bool) {
    (names.iter().map(|n| n.to_string()).collect(), enabled)
}

#[test]
fn a_folder_two_mods_share_is_on_when_either_is_enabled() {
    let plans = vec![
        plan(&["Shared", "Zed"], true),
        plan(&["Shared", "Alpha"], false),
        plan(&["Off"], false),
    ];
    assert_eq!(
        registration_states(&plans),
        states(&[("Alpha", false), ("Off", false), ("Shared", true), ("Zed", true)])
    );
    let reversed = vec![plan(&["Shared"], false), plan(&["Shared"], true)];
    assert_eq!(registration_states(&reversed), states(&[("Shared", true)]));
}

#[test]
fn with_nothing_enabled_our_mods_txt_is_taken_back_out() {
    assert_eq!(registration_sync(&Vec::new()), RegistrationSync::Untouched);
    assert_eq!(registration_sync(&states(&[("A", false)])), RegistrationSync::Clear);
    assert_eq!(
        registration_sync(&states(&[("A", false), ("B", true)])),
        RegistrationSync::Write
    );
    assert!(registration_states(&vec![plan(&[], true)]).is_empty());
}
