use alter_ego_tools::tools::chance::Chance;
use alter_ego_tools::tools::procedural::{
    PossibleFlag, Procedural, ProceduralBuilder, ProceduralError, Stat,
};

fn chance(value: f64) -> Chance {
    Chance::from_decimal(&value.to_string()).unwrap()
}

#[test]
fn test_builder_valid() {
    let mut builder = ProceduralBuilder::new();
    builder.name("Test");
    builder.chance(chance(64.0));
    builder.possibility(Some("Test"), Some(chance(34.0)));
    builder.stat(Stat::Dexterity);
    let result = builder.build().unwrap();

    assert_eq!(result.name(), &Some("Test".to_owned()));
    assert_eq!(result.chance(), &Some(chance(64.0)));
    assert_eq!(result.stat(), &Some(Stat::Dexterity));
    assert_eq!(result.possibilities(), &vec![(Some("Test".to_owned()), Some(chance(34.0)))]);
}

#[test]
fn procedural_test_builder_err() {
    let mut builder = ProceduralBuilder::new();
    builder.chance(chance(132.0));
    let chance_result = builder.build();
    assert!(chance_result.is_err());

    let possibility = Procedural::builder().possibility(None, Some(chance(-64.0))).build();
    assert!(possibility.is_err());

    let possibilities = Procedural::builder()
        .possibilities(vec![
            (None, Some(chance(145.0))),
            (Some("Test"), Some(chance(0.0))),
            (None, None),
        ])
        .build();
    assert!(possibilities.is_err());
}

#[test]
fn test_empty_procedural_generate() {
    let proc = Procedural::builder().build();
    let expected = String::from("<procedural></procedural>");
    let output = proc.unwrap().generate_procedural_string();

    assert_eq!(output, expected);
}

#[test]
fn test_procedural_generate() {
    let mut builder = Procedural::builder();
    builder.name("beverage flavor");
    builder.chance(chance(100.0));
    builder.stat(Stat::Speed);
    builder.possibility(Some("water"), Some(chance(66.6)));
    builder.possibility(Some("crush"), None);
    builder.possibility(Some("sierra mist"), None);
    builder.possibility(Some("root beer"), None);
    let result = builder.build().unwrap().generate_procedural_string();
    let expected = String::from(
        r#"<procedural name="beverage flavor" chance="100" stat="spd"><poss name="water" chance="66.6">water</poss><poss name="crush">crush</poss><poss name="sierra mist">sierra mist</poss><poss name="root beer">root beer</poss></procedural>"#,
    );
    assert_eq!(result, expected);
}

#[test]
fn test_possible_names() {
    let mut builder = Procedural::builder();
    builder.name("beverage flavor");
    builder.possibility(Some("water"), Some(chance(66.6)));
    builder.possibility(Some("crush"), None);
    builder.possibility(Some("sierra mist"), None);
    builder.possibility(Some("root beer"), None);
    let uppercase_result = builder
        .build()
        .unwrap()
        .generate_possible_names(PossibleFlag::Uppercase)
        .unwrap();
    let lowercase_result = builder
        .build()
        .unwrap()
        .generate_possible_names(PossibleFlag::Lowercase)
        .unwrap();
    let uppercase_expected = "[beverage flavor=water: WATER], [beverage flavor=crush: CRUSH], [beverage flavor=sierra mist: SIERRA MIST], [beverage flavor=root beer: ROOT BEER]";
    let lowercase_expected = "[beverage flavor=water: water], [beverage flavor=crush: crush], [beverage flavor=sierra mist: sierra mist], [beverage flavor=root beer: root beer]";

    assert_eq!(uppercase_result, uppercase_expected);
    assert_eq!(lowercase_result, lowercase_expected);
}

#[test]
fn test_possible_containing_phrases() {
    let mut builder = Procedural::builder();
    builder.name("beverage flavor");
    builder.possibility(Some("water"), Some(chance(66.6)));
    builder.possibility(Some("crush"), None);
    builder.possibility(Some("sierra mist"), None);
    builder.possibility(Some("root beer"), None);
    let pattern = "a bottle of {}, bottles of {}";
    let uppercase_result = builder
        .build()
        .unwrap()
        .generate_possible_containing_phrases(pattern, PossibleFlag::Uppercase)
        .unwrap();
    let lowercase_result = builder
        .build()
        .unwrap()
        .generate_possible_containing_phrases(pattern, PossibleFlag::Lowercase)
        .unwrap();
    let uppercase_expected = "[beverage flavor=water: a bottle of WATER, bottles of WATER], [beverage flavor=crush: a bottle of CRUSH, bottles of CRUSH], [beverage flavor=sierra mist: a bottle of SIERRA MIST, bottles of SIERRA MIST], [beverage flavor=root beer: a bottle of ROOT BEER, bottles of ROOT BEER]";
    let lowercase_expected = "[beverage flavor=water: a bottle of water, bottles of water], [beverage flavor=crush: a bottle of crush, bottles of crush], [beverage flavor=sierra mist: a bottle of sierra mist, bottles of sierra mist], [beverage flavor=root beer: a bottle of root beer, bottles of root beer]";

    assert_eq!(uppercase_result, uppercase_expected);
    assert_eq!(lowercase_result, lowercase_expected);
}

#[test]
fn stat_from_name_example() {
    let stat = Stat::from_name("Perception");
    assert_eq!(Some(Stat::Perception), stat);
    assert_eq!(Stat::from_name("perception"), None);
    assert_eq!(Stat::from_name("Stamina"), Some(Stat::Stamina));
}

#[test]
fn stat_to_string_example() {
    assert_eq!(Stat::Perception.to_string(), "per");
    assert_eq!(Stat::Strength.to_string(), "str");
    assert_eq!(Stat::Dexterity.to_string(), "dex");
    assert_eq!(Stat::Speed.to_string(), "spd");
    assert_eq!(Stat::Stamina.to_string(), "sta");
}

#[test]
fn flag_from_name() {
    assert_eq!(PossibleFlag::from("Uppercase"), PossibleFlag::Uppercase);
    assert_eq!(PossibleFlag::from("Lowercase"), PossibleFlag::Lowercase);
    assert_eq!(PossibleFlag::from("None"), PossibleFlag::Unchanged);
    assert_eq!(PossibleFlag::from("uppercase"), PossibleFlag::Unchanged);
}

#[test]
fn possible_names_doc_example() {
    let procedural = ProceduralBuilder::new()
        .name("beverage flavor")
        .possibility(Some("water"), None)
        .build()
        .unwrap();
    let names = procedural.generate_possible_names(PossibleFlag::Uppercase).unwrap();
    assert_eq!(names, "[beverage flavor=water: WATER]");
    let phrases = procedural
        .generate_possible_containing_phrases("a bottle of {}, bottles of {}", PossibleFlag::Uppercase)
        .unwrap();
    assert_eq!(phrases, "[beverage flavor=water: a bottle of WATER, bottles of WATER]");
}

#[test]
fn unchanged_flag_and_bare_placeholder() {
    let procedural = ProceduralBuilder::new()
        .name("drink")
        .possibility(Some("Tea"), None)
        .possibility(None, Some(chance(50.0)))
        .possibility(Some("Straße"), None)
        .build()
        .unwrap();
    let names = procedural.generate_possible_names(PossibleFlag::Unchanged).unwrap();
    assert_eq!(names, "[drink=Tea: Tea], [drink=Straße: Straße]");
    let phrases =
        procedural.generate_possible_containing_phrases("{}", PossibleFlag::Unchanged).unwrap();
    assert_eq!(phrases, names);
    let upper = procedural.generate_possible_names(PossibleFlag::Uppercase).unwrap();
    assert_eq!(upper, "[drink=Tea: TEA], [drink=Straße: STRASSE]");
}

#[test]
fn names_need_name_and_named_possibility() {
    let unnamed = ProceduralBuilder::new().possibility(Some("a"), None).build().unwrap();
    assert!(matches!(
        unnamed.generate_possible_names(PossibleFlag::Unchanged),
        Err(ProceduralError::MissingName)
    ));
    let nothing_named = ProceduralBuilder::new()
        .name("x")
        .possibility(None, Some(chance(10.0)))
        .build()
        .unwrap();
    assert!(matches!(
        nothing_named.generate_possible_containing_phrases("{}", PossibleFlag::Unchanged),
        Err(ProceduralError::NoNamedPossibility)
    ));
}

#[test]
fn possibility_without_name_has_no_content() {
    let p = ProceduralBuilder::new()
        .possibility(None, Some(chance(12.5)))
        .possibility(Some(""), None)
        .build()
        .unwrap();
    assert_eq!(
        p.generate_procedural_string(),
        r#"<procedural><poss chance="12.5"></poss><poss name=""></poss></procedural>"#
    );
}

#[test]
fn first_out_of_range_chance_is_reported() {
    let result = Procedural::builder()
        .possibilities(vec![(None, Some(chance(101.0))), (None, Some(chance(-3.0)))])
        .build();
    match result {
        Err(ProceduralError::PossibilityChanceOutOfRange(c)) => assert_eq!(c, "101"),
        other => panic!("unexpected {:?}", other),
    }
    let err = Procedural::builder().chance(chance(-0.5)).build().unwrap_err();
    assert_eq!(err.message(), "Chance -0.5 cannot be more than 100 or be less than 0.");
}

#[test]
fn chance_range_edges() {
    for (value, allowed) in [
        (0.0, true),
        (100.0, true),
        (-0.0, true),
        (99.99, true),
        (100.01, false),
        (-0.01, false),
        (1000.0, false),
        (f64::NAN, true),
        (f64::INFINITY, false),
        (f64::NEG_INFINITY, false),
    ] {
        assert_eq!(chance(value).in_range(), allowed, "chance {}", value);
    }
}

#[test]
fn chance_text_forms() {
    assert!(Chance::from_decimal("12").is_some());
    assert!(Chance::from_decimal("-12.50").is_some());
    assert!(Chance::from_decimal("NaN").is_some());
    assert!(Chance::from_decimal("inf").is_some());
    assert!(Chance::from_decimal("").is_none());
    assert!(Chance::from_decimal("1.").is_none());
    assert!(Chance::from_decimal(".5").is_none());
    assert!(Chance::from_decimal("1e5").is_none());
    assert!(Chance::from_decimal("--1").is_none());
    assert_eq!(chance(66.6).text(), "66.6");
}

#[test]
fn form_rules() {
    let procedural = Procedural::from_form(
        "",
        None,
        "No stat",
        &vec![("water".to_owned(), None), ("".to_owned(), Some(chance(5.0)))],
    )
    .unwrap();
    assert_eq!(procedural.name(), &None);
    assert_eq!(procedural.stat(), &None);
    assert_eq!(
        procedural.generate_procedural_string(),
        r#"<procedural><poss name="water">water</poss><poss chance="5"></poss></procedural>"#
    );
    let named = Procedural::from_form("drink", Some(chance(20.0)), "Speed", &vec![]).unwrap();
    assert_eq!(named.stat(), &Some(Stat::Speed));
    assert!(matches!(
        named.containing_phrases_for("", PossibleFlag::Unchanged),
        Err(ProceduralError::MissingPattern)
    ));
}

#[test]
fn lowercase_flag_changes_capitals() {
    let procedural = ProceduralBuilder::new()
        .name("Flavor")
        .possibility(Some("Root BEER"), None)
        .possibility(Some("ÉCLAIR"), None)
        .build()
        .unwrap();
    let lower = procedural.generate_possible_names(PossibleFlag::Lowercase).unwrap();
    assert_eq!(lower, "[Flavor=Root BEER: root beer], [Flavor=ÉCLAIR: éclair]");
    let phrases = procedural
        .generate_possible_containing_phrases("some {}", PossibleFlag::Lowercase)
        .unwrap();
    assert_eq!(phrases, "[Flavor=Root BEER: some root beer], [Flavor=ÉCLAIR: some éclair]");
}
