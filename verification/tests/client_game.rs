use amf_packet::game::sys::{ChallengeType, Organism, Quality, SysInfo, Tool};
use amf_packet::game::user::{UserOrganism, UserTool};
use amf_packet::game::ErrorKind as GameErrorKind;
use amf_packet::{AccountInfo, ClientBuilder, ErrorKind};

fn organism(id: usize, name: &str) -> Organism {
    Organism {
        id,
        name: name.to_string(),
        organism_type: 1,
        attribute: String::new(),
        height: 1,
        width: 1,
        image_id: id,
        evolutions: Vec::new(),
    }
}

fn tool(tool_id: usize, name: &str) -> Tool {
    Tool {
        tool_id,
        name: name.to_string(),
        image_id: tool_id,
        tool_type: 0,
        kind_name: String::new(),
    }
}

#[test]
fn quality_names_round_trip() {
    let all = [
        Quality::Inferior,
        Quality::Common,
        Quality::Fine,
        Quality::Refined,
        Quality::Superb,
        Quality::Epic,
        Quality::Legend,
        Quality::Artifact,
        Quality::DemonKing,
        Quality::WarGod,
        Quality::Supreme,
        Quality::DemonGod,
        Quality::Dazzling,
        Quality::Immortal,
        Quality::Eternal,
        Quality::Exalted,
        Quality::Boundless,
        Quality::Chaos,
    ];
    for q in all {
        assert_eq!(Quality::from_name(q.name()), Some(q));
    }
    assert_eq!(Quality::from_name("魔神"), Some(Quality::DemonGod));
    assert_eq!(Quality::from_name("劣质"), Some(Quality::Inferior));
    assert_eq!(Quality::from_name("no such grade"), None);
    assert_eq!(Quality::from_name(""), None);
    assert!(Quality::Inferior < Quality::Chaos);
}

#[test]
fn challenge_targets() {
    assert_eq!(
        ChallengeType::get_amf_target(&ChallengeType::Fuben),
        "api.fuben.challenge"
    );
    assert_eq!(
        ChallengeType::get_amf_target(&ChallengeType::Stone),
        "api.stone.challenge"
    );
}

#[test]
fn organism_lookup() {
    let organisms = vec![organism(3, "pea"), organism(8, "nut"), organism(8, "nut+")];
    let owned = UserOrganism {
        id: 1,
        target_id: 8,
        quality: Quality::Common,
        skills: Vec::new(),
        special_skill: None,
    };
    let found = owned.get_organism(&organisms).unwrap();
    assert_eq!(found.id, 8);
    assert_eq!(found.name, "nut+");

    let missing = UserOrganism {
        id: 1,
        target_id: 9,
        quality: Quality::Common,
        skills: Vec::new(),
        special_skill: None,
    };
    assert!(matches!(
        missing.get_organism(&organisms),
        Err(GameErrorKind::Other(_))
    ));
}

#[test]
fn organism_lookup_is_index_bounded() {
    // The scan only visits the first `target_id` entries: on a catalogue
    // with ids 0 and 1, id 1 sits beyond the one-entry window and is not
    // found.
    let organisms = vec![organism(0, "zero"), organism(1, "one")];
    let owned = UserOrganism {
        id: 1,
        target_id: 1,
        quality: Quality::Common,
        skills: Vec::new(),
        special_skill: None,
    };
    assert!(owned.get_organism(&organisms).is_err());
    // A window larger than the catalogue is cut to its length instead of
    // being an out-of-bounds access.
    let far = UserOrganism {
        id: 1,
        target_id: 100,
        quality: Quality::Common,
        skills: Vec::new(),
        special_skill: None,
    };
    assert!(far.get_organism(&organisms).is_err());
}

#[test]
fn tool_lookup() {
    let tools = vec![tool(1, "shovel"), tool(5, "book")];
    let owned = UserTool { id: 5, amount: 2 };
    assert_eq!(owned.get_tool(&tools).unwrap().name, "book");
    let missing = UserTool { id: 6, amount: 0 };
    assert!(missing.get_tool(&tools).is_err());
    // An entry sitting inside its own one-entry window is found.
    let first = UserTool { id: 1, amount: 0 };
    assert_eq!(first.get_tool(&tools).unwrap().name, "shovel");
}

#[test]
fn sys_info_accessors() {
    let info = SysInfo::new(vec![organism(1, "pea")], vec![tool(2, "shovel")]);
    assert_eq!(info.organisms().len(), 1);
    assert_eq!(info.tools().len(), 1);
    assert_eq!(info.organisms()[0].name, "pea");
}

#[test]
fn cookie_accumulation() {
    let builder = ClientBuilder::new()
        .server(36)
        .cookie("sid".to_string(), "one".to_string())
        .cookie("uid".to_string(), "42".to_string())
        .cookie("sid".to_string(), "two".to_string());
    assert_eq!(builder.server_number(), Some(36));
    let pairs = builder.cookie_pairs();
    assert_eq!(pairs.len(), 2);
    assert_eq!(pairs[0], ("sid".to_string(), "two".to_string()));
    assert_eq!(pairs[1], ("uid".to_string(), "42".to_string()));
    assert_eq!(builder.cookie_header(), "sid=two;uid=42;");
}

#[test]
fn account_feeds_builder() {
    let account = AccountInfo {
        server: 256 + 36,
        cookies: vec![
            ("a".to_string(), "1".to_string()),
            ("b".to_string(), "2".to_string()),
            ("a".to_string(), "3".to_string()),
        ],
    };
    let builder = ClientBuilder::new().account(account);
    // The stored server number is reduced to the builder's 8-bit range.
    assert_eq!(builder.server_number(), Some(36));
    assert_eq!(builder.cookie_header(), "a=3;b=2;");
}

#[test]
fn empty_builder_state() {
    let builder = ClientBuilder::new();
    assert_eq!(builder.server_number(), None);
    assert_eq!(builder.cookie_header(), "");
}

#[test]
fn error_kind_messages() {
    assert_eq!(ErrorKind::Static("boom").as_str(), "boom");
    assert_eq!(ErrorKind::Owned("soft".to_string()).as_str(), "soft");
    assert_eq!(ErrorKind::from("static text").as_str(), "static text");
    assert_eq!(ErrorKind::from("owned".to_string()).as_str(), "owned");
    match GameErrorKind::other_str("unknow organism.") {
        GameErrorKind::Other(s) => assert_eq!(s, "unknow organism."),
        GameErrorKind::DataNotInitialized => panic!("wrong variant"),
    }
}

#[test]
fn server_host_spelling() {
    assert_eq!(amf_packet::server_host(6), "http://pvz-s6.youkia.com");
    assert_eq!(amf_packet::server_host(0), "http://pvz-s0.youkia.com");
    assert_eq!(amf_packet::server_host(12), "http://s12.youkia.pvz.youkia.com");
    assert_eq!(amf_packet::server_host(36), "http://s36.youkia.pvz.youkia.com");
    assert_eq!(amf_packet::server_host(255), "http://s255.youkia.pvz.youkia.com");
}
