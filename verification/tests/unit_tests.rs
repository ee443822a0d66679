//! Unit tests for the building blocks: ids, decimal rendering, word lists,
//! and hint deduplication.

use sanapeli::dedup::{as_client_and_hints, filter_unique_hinters, is_all_hints_given,
    uniques_and_duplicates};
use sanapeli::engine::{create_client, create_client_id};
use sanapeli::events::ClientAndHint;
use sanapeli::game::Client;
use sanapeli::numbers::u32_to_string;
use sanapeli::words::{get_words, RandomWordGenerator, WordGenerator};

fn s(x: &str) -> String {
    String::from(x)
}

fn client(id: &str, hint: Option<&str>) -> Client {
    Client { client_id: s(id), hint: hint.map(s), username: s(id) }
}

#[test]
fn client_ids_derive_from_usernames() {
    assert_eq!(create_client_id(&s("user1")), s("user1_id"));
    assert_eq!(create_client_id(&s("")), s("_id"));
}

#[test]
fn random_client_ids_have_uuid_shape() {
    let (id, c) = create_client(s("someone"));
    assert_eq!(id.len(), 32);
    assert_eq!(c.client_id, id);
    assert_eq!(c.username, s("someone"));
    assert_eq!(c.hint, None);
    let (other, _) = create_client(s("someone"));
    assert_ne!(id, other);
}

#[test]
fn counters_render_in_decimal() {
    assert_eq!(u32_to_string(0), s("0"));
    assert_eq!(u32_to_string(7), s("7"));
    assert_eq!(u32_to_string(1001), s("1001"));
    assert_eq!(u32_to_string(4294967295), s("4294967295"));
}

#[test]
fn word_lists_split_on_newlines() {
    let words = get_words("aakkonen\nsana\npeli");
    assert_eq!(words, vec![s("aakkonen"), s("sana"), s("peli")]);
    assert_eq!(get_words("sana\n"), vec![s("sana"), s("")]);
    assert_eq!(get_words(""), vec![s("")]);
}

#[test]
fn random_words_come_from_the_list() {
    let mut single = RandomWordGenerator::from_words(vec![s("ainoa")]);
    assert_eq!(single.get_random_word(), s("ainoa"));

    let words = vec![s("yksi"), s("kaksi"), s("kolme")];
    let mut many = RandomWordGenerator::from_words(words.clone());
    for _ in 0..20 {
        let w = many.get_random_word();
        assert!(words.contains(&w));
    }

    let mut empty = <RandomWordGenerator as WordGenerator>::new();
    assert_eq!(empty.get_random_word(), s("sana"));
}

#[test]
fn completeness_needs_all_but_one_hint() {
    let none_given = vec![client("a", None), client("b", None)];
    assert!(!is_all_hints_given(&none_given));

    let one_of_two = vec![client("a", Some("x")), client("b", None)];
    assert!(is_all_hints_given(&one_of_two));

    let all_given = vec![client("a", Some("x")), client("b", Some("y"))];
    assert!(!is_all_hints_given(&all_given));

    let empty: Vec<Client> = Vec::new();
    assert!(!is_all_hints_given(&empty));
}

#[test]
fn deduplication_is_case_insensitive_and_sorted() {
    // The guesser (d) has no hint; b and c collide up to case.
    let roster = vec![
        client("c_id", Some("Vinkki3")),
        client("a_id", Some("vinkki2")),
        client("b_id", Some("vinkki3")),
        client("d_id", None),
    ];
    let (uniques, duplicates, duplicate_ids) = uniques_and_duplicates(&roster);
    assert_eq!(uniques, vec![ClientAndHint { client: s("a_id"), hint: s("vinkki2") }]);
    assert_eq!(
        duplicates,
        vec![
            ClientAndHint { client: s("b_id"), hint: s("vinkki3") },
            ClientAndHint { client: s("c_id"), hint: s("Vinkki3") },
        ]
    );
    assert_eq!(duplicate_ids, vec![s("b_id"), s("c_id")]);
}

#[test]
fn unique_hinters_keep_roster_order() {
    let roster = vec![
        client("z_id", Some("yksi")),
        client("a_id", Some("kaksi")),
        client("m_id", None),
    ];
    let uniques = filter_unique_hinters(&roster);
    assert_eq!(uniques.len(), 2);
    assert_eq!(uniques[0].client_id, s("z_id"));
    assert_eq!(uniques[1].client_id, s("a_id"));
}

#[test]
fn summary_entries_sort_by_participant_id() {
    let hinters = vec![
        client("delta", Some("d")),
        client("alpha", Some("a")),
        client("charlie", Some("c")),
        client("bravo", Some("b")),
    ];
    let sorted = as_client_and_hints(&hinters);
    let ids: Vec<String> = sorted.iter().map(|x| x.client.clone()).collect();
    assert_eq!(ids, vec![s("alpha"), s("bravo"), s("charlie"), s("delta")]);
}
