use wks::encoder::encode_local_part;

#[test]
fn encodes_the_draft_example() {
    assert_eq!(encode_local_part("joe.doe"), "iy9q119eutrkn8s1mk4r39qejnbu3n5q");
}

#[test]
fn encodes_other_local_parts() {
    assert_eq!(encode_local_part("alice"), "kei1q4tipxxu1yj79k9kfukdhfy631xe");
    assert_eq!(encode_local_part("bob"), "jycbiujnsxs47xrkethgtj69xuunurok");
}

#[test]
fn encodes_the_empty_local_part() {
    assert_eq!(encode_local_part(""), "5eh48516ppfo4c1iz9z3kaya1nz7obaj");
}

#[test]
fn token_depends_on_case() {
    assert_eq!(encode_local_part("Joe.Doe"), "pcgzakauf7ubbkqhq39ifojo7wji1m59");
    assert_ne!(encode_local_part("Joe.Doe"), encode_local_part("joe.doe"));
}

#[test]
fn token_has_32_characters_of_the_alphabet() {
    let alphabet = "ybndrfg8ejkmcpqxot1uwisza345h769";
    for local in ["a", "alice", "a.very.long.local.part+tag", "\u{e9}t\u{e9}"] {
        let token = encode_local_part(local);
        assert_eq!(token.len(), 32);
        assert!(token.chars().all(|c| alphabet.contains(c)));
    }
}

#[test]
fn token_is_the_same_on_every_call() {
    assert_eq!(encode_local_part("carol"), encode_local_part("carol"));
}
