use falcon_key_file::ranking::rank;
use falcon_key_file::{Callback, FalconKeyfile, Key, Modifier};

fn binding(name: &str, key_code: u16, modifier_mask: u16) -> Callback {
    Callback::new(String::from(name), key_code, modifier_mask, 0xFFFF, 0)
}

fn sample() -> FalconKeyfile {
    FalconKeyfile::new(
        String::from("sample.key"),
        vec![
            binding("SimThrottleIdleDetent", 23, 4),
            binding("OTWViewZoomIn", 71, 0),
            binding("AFBrakesToggle", 48, 0),
            binding("WinAmpNextTrack", 49, 3),
            binding("AFGearToggle", 34, 0),
        ],
    )
}

#[test]
fn assembled_callback_keeps_raw_and_resolved_fields() {
    let callback = Callback::new(String::from("AFElevatorUp"), 200, 3, 46, 4);
    assert_eq!(callback.name, "AFElevatorUp");
    assert_eq!(callback.key_code, 200);
    assert_eq!(callback.readable_key_code, Key::UpArrow);
    assert_eq!(callback.modifiers, vec![Modifier::LSHIFT, Modifier::LCONTROL]);
    assert_eq!(callback.combo_key_code, 46);
    assert_eq!(callback.readable_combo_key_code, Key::C);
    assert_eq!(callback.combo_modifiers, vec![Modifier::LALT]);
}

#[test]
fn cloned_callback_is_the_same() {
    let callback = Callback::new(String::from("AFElevatorUp"), 200, 3, 46, 4);
    let copy = callback.clone();
    assert_eq!(copy.name, callback.name);
    assert_eq!(copy.key_code, callback.key_code);
    assert_eq!(copy.readable_key_code, callback.readable_key_code);
    assert_eq!(copy.modifiers, callback.modifiers);
    assert_eq!(copy.combo_key_code, callback.combo_key_code);
    assert_eq!(copy.readable_combo_key_code, callback.readable_combo_key_code);
    assert_eq!(copy.combo_modifiers, callback.combo_modifiers);
}

#[test]
fn lookup_finds_registered_names() {
    let keyfile = sample();
    let callback = keyfile.callback("AFBrakesToggle").unwrap();
    assert_eq!(callback.name, "AFBrakesToggle");
    assert_eq!(callback.readable_key_code, Key::B);
    let callback = keyfile.callback("WinAmpNextTrack").unwrap();
    assert_eq!(callback.readable_key_code, Key::N);
    assert_eq!(callback.modifiers, vec![Modifier::LSHIFT, Modifier::LCONTROL]);
}

#[test]
fn lookup_of_unregistered_name_is_absent() {
    let keyfile = sample();
    assert!(keyfile.callback("NoSuchName").is_none());
    assert!(keyfile.callback("").is_none());
    assert!(keyfile.callback("afbrakestoggle").is_none());
    assert!(keyfile.callback("AFBrakesToggle ").is_none());
    let empty = FalconKeyfile::new(String::from("empty.key"), vec![]);
    assert!(empty.callback("NoSuchName").is_none());
}

#[test]
fn later_callback_replaces_earlier_of_the_same_name() {
    let keyfile = FalconKeyfile::new(
        String::from("twice.key"),
        vec![
            binding("First", 30, 0),
            binding("Second", 31, 0),
            binding("First", 32, 1),
            binding("Third", 33, 0),
            binding("First", 34, 2),
        ],
    );
    assert_eq!(keyfile.describe(), "twice.key with 3 callbacks.");
    let callback = keyfile.callback("First").unwrap();
    assert_eq!(callback.key_code, 34);
    assert_eq!(callback.readable_key_code, Key::G);
    assert_eq!(callback.modifiers, vec![Modifier::LCONTROL]);
    assert_eq!(keyfile.callback("Second").unwrap().key_code, 31);
    assert_eq!(
        keyfile.propose_callback_names(String::from("?????"), 3),
        vec!["First", "Third", "Second"]
    );
}

#[test]
fn description_names_the_file_and_counts_the_callbacks() {
    assert_eq!(sample().describe(), "sample.key with 5 callbacks.");
    assert_eq!(
        FalconKeyfile::new(String::new(), vec![]).describe(),
        " with 0 callbacks."
    );
    assert_eq!(
        FalconKeyfile::new(String::from("one"), vec![binding("A", 1, 0)]).describe(),
        "one with 1 callbacks."
    );
    let many: Vec<Callback> = (0..120).map(|i| binding(&format!("Callback{}", i), 30, 0)).collect();
    assert_eq!(
        FalconKeyfile::new(String::from("many.key"), many).describe(),
        "many.key with 120 callbacks."
    );
}

#[test]
fn nearest_name_is_proposed_first() {
    let keyfile = sample();
    assert_eq!(
        keyfile.propose_callback_names(String::from("AFBrake"), 1),
        vec!["AFBrakesToggle"]
    );
    assert_eq!(
        keyfile.propose_callback_names(String::from("AFGearTogle"), 2),
        vec!["AFGearToggle", "AFBrakesToggle"]
    );
}

#[test]
fn proposals_are_ranked_by_edit_distance() {
    let keyfile = FalconKeyfile::new(
        String::from("d.key"),
        vec![
            binding("sitting", 1, 0),
            binding("kitchen", 1, 0),
            binding("kitten", 1, 0),
            binding("mitten", 1, 0),
            binding("", 1, 0),
        ],
    );
    // distances from "kitten": sitting 3, kitchen 2, kitten 0, mitten 1, "" 6
    assert_eq!(
        keyfile.propose_callback_names(String::from("kitten"), 5),
        vec!["kitten", "mitten", "kitchen", "sitting", ""]
    );
    assert_eq!(
        keyfile.propose_callback_names(String::from(""), 5),
        vec!["", "kitten", "mitten", "sitting", "kitchen"]
    );
}

#[test]
fn equally_near_names_keep_their_order() {
    let keyfile = FalconKeyfile::new(
        String::from("ties.key"),
        vec![
            binding("bat", 1, 0),
            binding("cat", 1, 0),
            binding("hat", 1, 0),
            binding("at", 1, 0),
            binding("rat", 1, 0),
        ],
    );
    assert_eq!(
        keyfile.propose_callback_names(String::from("mat"), 5),
        vec!["bat", "cat", "hat", "at", "rat"]
    );
    assert_eq!(
        keyfile.propose_callback_names(String::from("at"), 5),
        vec!["at", "bat", "cat", "hat", "rat"]
    );
    assert_eq!(
        keyfile.propose_callback_names(String::from("rat"), 3),
        vec!["rat", "bat", "cat"]
    );
}

#[test]
fn proposals_are_limited_by_count_and_by_the_registry() {
    let keyfile = sample();
    assert_eq!(
        keyfile.propose_callback_names(String::from("AFBrake"), 0),
        Vec::<String>::new()
    );
    assert_eq!(keyfile.propose_callback_names(String::from("AFBrake"), 3).len(), 3);
    assert_eq!(keyfile.propose_callback_names(String::from("AFBrake"), 5).len(), 5);
    let all = keyfile.propose_callback_names(String::from("AFBrake"), usize::MAX);
    assert_eq!(all.len(), 5);
    for name in [
        "SimThrottleIdleDetent",
        "OTWViewZoomIn",
        "AFBrakesToggle",
        "WinAmpNextTrack",
        "AFGearToggle",
    ] {
        assert!(all.iter().any(|n| n == name));
    }
    let empty = FalconKeyfile::new(String::from("empty.key"), vec![]);
    assert_eq!(
        empty.propose_callback_names(String::from("AFBrake"), 4),
        Vec::<String>::new()
    );
}

#[test]
fn distance_counts_characters_not_bytes() {
    let keyfile = FalconKeyfile::new(
        String::from("u.key"),
        vec![binding("ab", 1, 0), binding("\u{e9}\u{e8}\u{ea}", 1, 0)],
    );
    // from "eee": "ab" is 3 edits away, the accented name 3 as well, so the order stays
    assert_eq!(
        keyfile.propose_callback_names(String::from("eee"), 2),
        vec!["ab", "\u{e9}\u{e8}\u{ea}"]
    );
    // from "\u{e9}\u{e8}": the accented name is 1 edit away, "ab" 2
    assert_eq!(
        keyfile.propose_callback_names(String::from("\u{e9}\u{e8}"), 2),
        vec!["\u{e9}\u{e8}\u{ea}", "ab"]
    );
}

#[test]
fn cloned_keyfile_answers_alike() {
    let keyfile = sample();
    let copy = keyfile.clone();
    assert_eq!(copy.describe(), keyfile.describe());
    assert_eq!(
        copy.callback("AFGearToggle").unwrap().key_code,
        keyfile.callback("AFGearToggle").unwrap().key_code
    );
    assert_eq!(
        copy.propose_callback_names(String::from("OTW"), 5),
        keyfile.propose_callback_names(String::from("OTW"), 5)
    );
}

#[test]
fn ranking_is_stable() {
    assert_eq!(rank(&vec![]), Vec::<usize>::new());
    assert_eq!(rank(&vec![5]), vec![0]);
    assert_eq!(rank(&vec![3, 1, 2]), vec![1, 2, 0]);
    assert_eq!(rank(&vec![2, 1, 2, 1, 0, 2]), vec![4, 1, 3, 0, 2, 5]);
    assert_eq!(rank(&vec![7, 7, 7]), vec![0, 1, 2]);
    assert_eq!(rank(&vec![usize::MAX, 0]), vec![1, 0]);
}

fn words(alphabet: &[char], longest: usize) -> Vec<String> {
    let mut all = vec![String::new()];
    let mut from = 0;
    for _ in 0..longest {
        let upto = all.len();
        for i in from..upto {
            for c in alphabet {
                let mut word = all[i].clone();
                word.push(*c);
                all.push(word);
            }
        }
        from = upto;
    }
    all
}

fn distance_by_recurrence(a: &[char], b: &[char]) -> usize {
    if a.is_empty() {
        b.len()
    } else if b.is_empty() {
        a.len()
    } else {
        let (a_init, b_init) = (&a[..a.len() - 1], &b[..b.len() - 1]);
        let replace = if a[a.len() - 1] == b[b.len() - 1] { 0 } else { 1 };
        (distance_by_recurrence(a_init, b) + 1)
            .min(distance_by_recurrence(a, b_init) + 1)
            .min(distance_by_recurrence(a_init, b_init) + replace)
    }
}

#[test]
fn proposals_follow_the_recurrence_of_the_distance() {
    let names = words(&['a', 'b'], 3);
    assert_eq!(names.len(), 15);
    let keyfile = FalconKeyfile::new(
        String::from("words.key"),
        names.iter().map(|name| binding(name, 30, 0)).collect(),
    );
    for query in words(&['a', 'b', 'c'], 4) {
        let q: Vec<char> = query.chars().collect();
        let mut expected = names.clone();
        expected.sort_by_key(|name| {
            let n: Vec<char> = name.chars().collect();
            distance_by_recurrence(&q, &n)
        });
        assert_eq!(keyfile.propose_callback_names(query, 15), expected);
    }
}
