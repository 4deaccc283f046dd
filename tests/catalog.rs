use gardenwatch::codec::{decode, encode, DecodeError};
use gardenwatch::error::StoreError;
use gardenwatch::plant::{ParseError, PlantType};
use gardenwatch::query::{find_by_id, find_by_type, next_free_id};
use gardenwatch::seed::Seed;
use gardenwatch::service::{Items, SeedRequest, Server};
use gardenwatch::snapshot::{SeedBank, Seeds};
use gardenwatch::schema::{seed_models, Models, SEED_MODEL_ID, SEED_MODEL_VERSION};
use gardenwatch::store::Store;

fn seed(id: u64, plant_type: PlantType, name: &str) -> Seed {
    Seed::new(
        id,
        plant_type,
        name.to_string(),
        "variety".to_string(),
        "description".to_string(),
        "company".to_string(),
        "C-1".to_string(),
        "start indoors".to_string(),
        "7 days".to_string(),
        "20C".to_string(),
        "4 weeks".to_string(),
        "30cm".to_string(),
        "90 days".to_string(),
    )
}

fn two_records() -> Vec<Seed> {
    vec![seed(1, PlantType::Fruit, "Apple"), seed(2, PlantType::Vegetable, "Carrot")]
}

#[test]
fn parse_plant_type_names_and_aliases() {
    assert_eq!(PlantType::parse("Fruit"), Ok(PlantType::Fruit));
    assert_eq!(PlantType::parse("fruit"), Ok(PlantType::Fruit));
    assert_eq!(PlantType::parse("veg"), Ok(PlantType::Vegetable));
    assert_eq!(PlantType::parse("VEGETABLE"), Ok(PlantType::Vegetable));
    assert_eq!(PlantType::parse("Flower"), Ok(PlantType::Flower));
    assert_eq!(PlantType::parse("tReE"), Ok(PlantType::Tree));
    assert_eq!(PlantType::parse("unknown"), Err(ParseError));
    assert_eq!(PlantType::parse(""), Err(ParseError));
    assert_eq!(PlantType::parse("vegetables"), Err(ParseError));
}

#[test]
fn plant_type_canonical_text() {
    assert_eq!(PlantType::Vegetable.to_text(), "Vegetable");
    assert_eq!(PlantType::Tree.name(), "Tree");
    for p in [PlantType::Fruit, PlantType::Vegetable, PlantType::Flower, PlantType::Tree] {
        assert_eq!(PlantType::parse(p.name()), Ok(p));
    }
}

#[test]
fn scenario_two_record_catalog() {
    let records = two_records();
    let fruit = find_by_type(&records, "Fruit").unwrap().unwrap();
    assert_eq!(fruit.len(), 1);
    assert_eq!(fruit[0].name, "Apple");
    assert_eq!(find_by_id(&records, 3), None);
    let text = encode(&records);
    assert_eq!(decode(&text), Ok(records));
}

#[test]
fn find_by_id_finds_the_record() {
    let records = two_records();
    assert_eq!(find_by_id(&records, 2).unwrap().name, "Carrot");
    assert_eq!(find_by_id(&records, 1).unwrap().name, "Apple");
    assert_eq!(find_by_id(&Vec::new(), 1), None);
}

#[test]
fn vegetable_alias_selects_same_records() {
    let mut records = two_records();
    records.push(seed(3, PlantType::Vegetable, "Leek"));
    let a = find_by_type(&records, "veg").unwrap().unwrap();
    let b = find_by_type(&records, "vegetable").unwrap().unwrap();
    assert_eq!(a, b);
    assert_eq!(a.len(), 2);
    assert_eq!(a[0].name, "Carrot");
    assert_eq!(a[1].name, "Leek");
}

#[test]
fn unknown_type_is_an_error() {
    let records = two_records();
    assert_eq!(find_by_type(&records, "unknown"), Err(ParseError));
    assert_eq!(find_by_type(&Vec::new(), "unknown"), Err(ParseError));
}

#[test]
fn no_match_is_none() {
    let records = two_records();
    assert_eq!(find_by_type(&records, "tree"), Ok(None));
    assert_eq!(find_by_type(&Vec::new(), "fruit"), Ok(None));
}

#[test]
fn encode_exact_text() {
    let records = vec![seed(7, PlantType::Flower, "Rose")];
    let expected = "[{\"id\":7,\"plant_type\":\"Flower\",\"name\":\"Rose\",\"variety\":\"variety\",\"description\":\"description\",\"company\":\"company\",\"company_id\":\"C-1\",\"start_instructions\":\"start indoors\",\"germinate_time\":\"7 days\",\"germinate_temp\":\"20C\",\"transplant_time\":\"4 weeks\",\"final_spacing\":\"30cm\",\"harvest_time\":\"90 days\"}]";
    assert_eq!(encode(&records), expected);
    assert_eq!(encode(&Vec::new()), "[]");
    assert_eq!(decode("[]"), Ok(Vec::new()));
}

#[test]
fn round_trip_single_record_with_escapes() {
    let mut s = seed(18446744073709551615, PlantType::Tree, "Oak \"English\"\\ line\nnext\ttab\rcr");
    s.description = "Groß — ñandú 🌱".to_string();
    s.company = String::new();
    let records = vec![s];
    let text = encode(&records);
    assert!(text.contains("\\\"English\\\"\\\\ line\\nnext\\ttab\\rcr"));
    assert!(text.contains("Groß — ñandú 🌱"));
    assert_eq!(decode(&text), Ok(records));
}

#[test]
fn round_trip_zero_id_and_many_records() {
    let records = vec![
        seed(0, PlantType::Fruit, "a"),
        seed(10, PlantType::Vegetable, "b"),
        seed(305, PlantType::Flower, "c"),
        seed(10, PlantType::Tree, "d"),
    ];
    assert_eq!(decode(&encode(&records)), Ok(records));
}

#[test]
fn decode_rejects_malformed_text() {
    let good = encode(&vec![seed(5, PlantType::Fruit, "Fig")]);
    assert_eq!(decode(""), Err(DecodeError));
    assert_eq!(decode("["), Err(DecodeError));
    assert_eq!(decode("[] x"), Err(DecodeError));
    assert_eq!(decode(&good[..good.len() - 1]), Err(DecodeError));
    assert_eq!(decode(&format!("{},", good)), Err(DecodeError));
    assert_eq!(decode(&good.replace("\"Fruit\"", "\"Berry\"")), Err(DecodeError));
    assert_eq!(decode(&good.replace("\"Fruit\"", "\"fruit\"")), Err(DecodeError));
    assert_eq!(decode(&good.replace("\"id\":5", "\"id\":05")), Err(DecodeError));
    assert_eq!(decode(&good.replace("\"id\":5", "\"id\":18446744073709551616")), Err(DecodeError));
    assert_eq!(decode(&good.replace(",\"variety\":\"variety\"", "")), Err(DecodeError));
    assert_eq!(decode(&good.replace("Fig", "F\\qg")), Err(DecodeError));
    assert_eq!(decode(&good.replace("Fig", "F\ng")), Err(DecodeError));
    assert_eq!(decode(&good), Ok(vec![seed(5, PlantType::Fruit, "Fig")]));
}

#[test]
fn next_free_id_follows_largest() {
    assert_eq!(next_free_id(&Vec::new()), Some(0));
    assert_eq!(next_free_id(&two_records()), Some(3));
    assert_eq!(next_free_id(&vec![seed(9, PlantType::Fruit, "x"), seed(4, PlantType::Fruit, "y")]), Some(10));
    assert_eq!(next_free_id(&vec![seed(u64::MAX, PlantType::Fruit, "x")]), None);
}

#[test]
fn store_duplicate_insert_fails_and_keeps_record() {
    let mut store = Store::open(two_records(), &seed_models(), &seed_models()).unwrap();
    let w = store.begin_write().unwrap();
    assert_eq!(store.insert(&w, seed(1, PlantType::Tree, "Other")), Err(StoreError::DuplicateKey));
    assert_eq!(store.staged_by_id(1).unwrap().name, "Apple");
    assert_eq!(store.insert(&w, seed(4, PlantType::Tree, "Elm")), Ok(()));
    assert_eq!(store.commit(w), Ok(()));
    let r = store.begin_read();
    assert_eq!(r.get_by_id(1).unwrap().name, "Apple");
    assert_eq!(r.get_by_id(4).unwrap().name, "Elm");
    assert_eq!(r.scan_all().len(), 3);
}

#[test]
fn store_uncommitted_scope_has_no_effect() {
    let mut store = Store::open(two_records(), &seed_models(), &seed_models()).unwrap();
    let w = store.begin_write().unwrap();
    assert_eq!(store.insert(&w, seed(3, PlantType::Flower, "Tulip")), Ok(()));
    assert_eq!(store.delete(&w, 1).unwrap().unwrap().name, "Apple");
    assert_eq!(store.begin_read().scan_all(), two_records());
    assert_eq!(store.rollback(w), Ok(()));
    let r = store.begin_read();
    assert_eq!(r.scan_all(), two_records());
    assert_eq!(r.get_by_id(3), None);
    assert!(store.begin_write().is_ok());
}

#[test]
fn store_second_writer_conflicts() {
    let mut store = Store::create(&seed_models()).unwrap();
    let w = store.begin_write().unwrap();
    assert!(matches!(store.begin_write(), Err(StoreError::WriteConflict)));
    assert_eq!(store.insert_new(&w, seed(99, PlantType::Fruit, "Plum")), Ok(0));
    assert_eq!(store.insert_new(&w, seed(99, PlantType::Fruit, "Pear")), Ok(1));
    assert_eq!(store.commit(w), Ok(()));
    let w2 = store.begin_write().unwrap();
    assert_eq!(store.rollback(w2), Ok(()));
    let all = store.begin_read().scan_all();
    assert_eq!(all.len(), 2);
    assert_eq!(all[1].id, 1);
    assert_eq!(all[1].name, "Pear");
}

#[test]
fn store_commit_without_writer_fails() {
    let mut a = Store::create(&seed_models()).unwrap();
    let mut b = Store::create(&seed_models()).unwrap();
    let w = a.begin_write().unwrap();
    assert_eq!(b.commit(w), Err(StoreError::WriteConflict));
    assert!(b.begin_read().scan_all().is_empty());
}

#[test]
fn store_refuses_stale_ticket() {
    let mut s = Store::create(&seed_models()).unwrap();
    let mut other = Store::create(&seed_models()).unwrap();
    let first = s.begin_write().unwrap();
    assert_eq!(s.insert_new(&first, seed(0, PlantType::Fruit, "Fig")), Ok(0));
    let foreign = other.begin_write().unwrap();
    let foreign_again = other.begin_write();
    assert!(foreign_again.is_err());
    assert_eq!(other.rollback(foreign), Ok(()));
    let stale = other.begin_write().unwrap();
    assert_eq!(s.rollback(stale), Err(StoreError::WriteConflict));
    assert!(matches!(s.begin_write(), Err(StoreError::WriteConflict)));
    assert_eq!(s.commit(first), Ok(()));
    let second = s.begin_write().unwrap();
    assert_eq!(s.insert_new(&second, seed(0, PlantType::Tree, "Yew")), Ok(1));
    assert_eq!(s.delete(&second, 1).unwrap().unwrap().name, "Yew");
    assert_eq!(s.commit(second), Ok(()));
    let third = s.begin_write().unwrap();
    assert_eq!(s.insert_new(&third, seed(0, PlantType::Tree, "Ash")), Ok(2));
    assert_eq!(s.rollback(third), Ok(()));
    let names: Vec<String> = s.begin_read().scan_all().into_iter().map(|x| x.name).collect();
    assert_eq!(names, vec!["Fig".to_string()]);
}

#[test]
fn store_open_rejects_duplicate_ids() {
    let records = vec![seed(1, PlantType::Fruit, "a"), seed(1, PlantType::Tree, "b")];
    assert!(matches!(Store::open(records, &seed_models(), &seed_models()), Err(StoreError::StoreOpen)));
}

#[test]
fn read_scope_filters_by_type() {
    let store = Store::open(two_records(), &seed_models(), &seed_models()).unwrap();
    let r = store.begin_read();
    assert_eq!(r.get_by_type("veg").unwrap().unwrap()[0].name, "Carrot");
    assert_eq!(r.get_by_type("rock"), Err(ParseError));
}

#[test]
fn snapshot_load_export_round_trip() {
    let text = encode(&two_records());
    let seeds = Seeds::load(&text).unwrap();
    assert_eq!(seeds.export(), text);
    assert_eq!(seeds.get_all(), two_records());
    assert_eq!(seeds.get_by_id(2).unwrap().name, "Carrot");
    assert_eq!(seeds.get_by_type("FRUIT").unwrap().unwrap()[0].name, "Apple");
    assert!(matches!(Seeds::load("not json"), Err(StoreError::SnapshotRead)));
    let dup = encode(&vec![seed(1, PlantType::Fruit, "a"), seed(1, PlantType::Tree, "b")]);
    assert!(matches!(Seeds::load(&dup), Err(StoreError::SnapshotRead)));
    assert_eq!(Seeds::import(&dup).unwrap().len(), 2);
    assert_eq!(Seeds::import("[{}]"), Err(StoreError::Decode));
}

#[test]
fn snapshot_get_all_is_a_copy() {
    let seeds = Seeds::load(&encode(&two_records())).unwrap();
    let mut all = seeds.get_all();
    all.clear();
    assert_eq!(seeds.get_all().len(), 2);
}

#[test]
fn snapshot_add_update_delete() {
    let mut seeds = Seeds::new();
    assert_eq!(seeds.add(seed(50, PlantType::Fruit, "Apple")), Ok(0));
    assert_eq!(seeds.add(seed(50, PlantType::Vegetable, "Carrot")), Ok(1));
    assert_eq!(seeds.update(seed(1, PlantType::Vegetable, "Parsnip")), Ok(()));
    assert_eq!(seeds.get_by_id(1).unwrap().name, "Parsnip");
    assert_eq!(seeds.update(seed(8, PlantType::Vegetable, "Nothing")), Err(StoreError::NotFound));
    assert_eq!(seeds.delete(0).unwrap().name, "Apple");
    assert_eq!(seeds.delete(0), None);
    assert_eq!(seeds.get_all().len(), 1);
    assert_eq!(seeds.add(seed(0, PlantType::Tree, "Ash")), Ok(2));
    assert_eq!(seeds.delete(2).unwrap().name, "Ash");
    assert_eq!(seeds.add(seed(0, PlantType::Tree, "Elm")), Ok(3));
}

#[test]
fn seed_bank_answers_requests() {
    let bank = SeedBank::init(Seeds::load(&encode(&two_records())).unwrap());
    let req = SeedRequest { plant_type: "Vegetable".to_string() };
    assert_eq!(req.answer(&bank).unwrap().unwrap()[0].name, "Carrot");
    let bad = SeedRequest { plant_type: "stone".to_string() };
    assert_eq!(bad.answer(&bank), Err(ParseError));
    assert_eq!(bank.catalog().get_all().len(), 2);
    let _server = Server::init();
}

#[test]
fn items_parse() {
    assert_eq!(Items::parse("seed", false), Some(Items::Seed));
    assert_eq!(Items::parse("SEED", false), None);
    assert_eq!(Items::parse("SEED", true), Some(Items::Seed));
    assert_eq!(Items::parse("seeds", true), None);
    assert_eq!(Items::Seed.name(), "seed");
}

#[test]
fn schema_registry_declarations() {
    let mut m = Models::new();
    assert!(!m.declares_id(SEED_MODEL_ID));
    assert_eq!(m.define(SEED_MODEL_ID, SEED_MODEL_VERSION), Ok(()));
    assert_eq!(m.define(SEED_MODEL_ID, SEED_MODEL_VERSION), Ok(()));
    assert_eq!(m.define(SEED_MODEL_ID, 2), Err(StoreError::SchemaConflict));
    assert!(m.declares_id(SEED_MODEL_ID));
    assert!(m.same_as(&seed_models()));
    assert_eq!(m.define(7, 3), Ok(()));
    assert!(!m.same_as(&seed_models()));
    assert!(m.copy().same_as(&m));
}

#[test]
fn store_needs_matching_registry() {
    assert!(matches!(Store::create(&Models::new()), Err(StoreError::StoreInit)));
    let mut newer = Models::new();
    assert_eq!(newer.define(SEED_MODEL_ID, 2), Ok(()));
    assert!(matches!(Store::open(two_records(), &seed_models(), &newer), Err(StoreError::StoreOpen)));
    assert!(matches!(Store::open(two_records(), &Models::new(), &Models::new()), Err(StoreError::StoreOpen)));
    let store = Store::open(two_records(), &newer, &newer).unwrap();
    assert!(store.models().same_as(&newer));
}

#[test]
fn decode_accepts_whitespace_between_tokens() {
    let records = vec![seed(3, PlantType::Tree, "Oak"), seed(9, PlantType::Flower, "Iris")];
    let compact = encode(&records);
    let spaced = compact
        .replace("[{", " [\n  {\n    ")
        .replace("\":\"", "\" : \"")
        .replace("\",\"", "\",\n    \"")
        .replace("},{", "}\r\n,\t{")
        .replace("\"}]", "\"\n  }\n]\n");
    assert_ne!(spaced, compact);
    assert_eq!(decode(&spaced), Ok(records));
}

#[test]
fn decode_assigns_ids_by_position_when_absent() {
    let fields = "\"name\": \"Apple\", \"variety\": \"variety\", \"description\": \"description\", \"company\": \"company\", \"company_id\": \"C-1\", \"start_instructions\": \"start indoors\", \"germinate_time\": \"7 days\", \"germinate_temp\": \"20C\", \"transplant_time\": \"4 weeks\", \"final_spacing\": \"30cm\", \"harvest_time\": \"90 days\"";
    let one = format!("[\n  {{\n    \"plant_type\": \"Fruit\",\n    {}\n  }}\n]", fields);
    assert_eq!(decode(&one), Ok(vec![seed(0, PlantType::Fruit, "Apple")]));
    let carrot = fields.replace("Apple", "Carrot");
    let two = format!(
        "[{{\"plant_type\":\"Fruit\",{}}},{{\"plant_type\":\"Vegetable\",{}}}]",
        fields, carrot
    );
    assert_eq!(decode(&two), Ok(vec![seed(0, PlantType::Fruit, "Apple"), seed(1, PlantType::Vegetable, "Carrot")]));
    let seeds = Seeds::load(&two).unwrap();
    assert_eq!(seeds.get_by_id(1).unwrap().name, "Carrot");
    let mixed = format!(
        "[{{\"id\":5,\"plant_type\":\"Fruit\",{}}},{{\"plant_type\":\"Vegetable\",{}}}]",
        fields, carrot
    );
    assert_eq!(decode(&mixed), Ok(vec![seed(5, PlantType::Fruit, "Apple"), seed(1, PlantType::Vegetable, "Carrot")]));
    let missing = format!("[{{\"plant_type\":\"Fruit\",{}}}]", fields.replace("\"company\": \"company\", ", ""));
    assert_eq!(decode(&missing), Err(DecodeError));
}
