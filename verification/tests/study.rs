use cn_study::loader::load_entries_from_reader;
use cn_study::model::Field;
use cn_study::model::LoadError;
use cn_study::model::NerveType;
use cn_study::model::RoundError;
use cn_study::model::StudyEntry;
use cn_study::normalize::normalize_header;
use cn_study::normalize::normalize_role;
use cn_study::normalize::parse_type;
use cn_study::rounds::build_level1_round;
use cn_study::rounds::build_level1_round_checked;
use cn_study::rounds::build_level2_round;
use cn_study::rounds::build_level2_round_checked;
use cn_study::rounds::build_level3_round;

fn sample_entry(
    name: &str,
    type_value: NerveType,
    function: &str,
    role: &str,
    order: usize,
) -> StudyEntry {
    StudyEntry {
        name: name.to_string(),
        type_value,
        function: function.to_string(),
        role_in_swallowing: role.to_string(),
        order,
    }
}

#[test]
fn normalize_header_handles_bom_and_typo() {
    assert_eq!(normalize_header("\u{feff}Name"), "name");
    assert_eq!(normalize_header(" Fuction "), "function");
    assert_eq!(normalize_header("role in swallowing"), "roleinswallowing");
    assert_eq!(normalize_header("role_in_swallowing"), "roleinswallowing");
}

#[test]
fn parse_type_validates_values() {
    assert_eq!(parse_type("Sensory", 1).unwrap(), NerveType::Sensory);
    assert_eq!(parse_type("motor", 2).unwrap(), NerveType::Motor);
    assert_eq!(parse_type("Both", 3).unwrap(), NerveType::Both);
    assert!(parse_type("mixed", 4).is_err());
}

#[test]
fn load_entries_normalizes_headers_and_roles() {
    let data = "\u{feff}name,type,fuction,role in swallowing\nOlfactory,sensory,Smell,none\nVagus,both,Parasympathetic,Pharyngeal phase\n";
    let entries = load_entries_from_reader(data.as_bytes()).expect("load entries");

    assert_eq!(entries.len(), 2);
    assert_eq!(entries[0].order, 1);
    assert_eq!(entries[0].role_in_swallowing, "");
    assert_eq!(entries[1].role_in_swallowing, "Pharyngeal phase");
}

#[test]
fn build_level1_round_includes_correct_name() {
    let entries = vec![
        sample_entry("I", NerveType::Sensory, "Smell", "", 1),
        sample_entry("II", NerveType::Sensory, "Vision", "", 2),
        sample_entry("III", NerveType::Motor, "Eye movement", "", 3),
        sample_entry("IV", NerveType::Motor, "Eye movement", "", 4),
        sample_entry("V", NerveType::Both, "Face", "", 5),
    ];

    let round = build_level1_round(&entries);
    assert_eq!(round.questions.len(), entries.len());

    for question in round.questions {
        assert!(question.name_options.contains(&question.entry.name));
        assert!(question.name_options.len() <= 4);
    }
}

#[test]
fn build_level1_round_supports_retry_lists() {
    let entries = vec![
        sample_entry("I", NerveType::Sensory, "Smell", "", 1),
        sample_entry("II", NerveType::Sensory, "Vision", "", 2),
        sample_entry("III", NerveType::Motor, "Eye movement", "", 3),
    ];
    let failed_entries = vec![entries[1].clone(), entries[2].clone()];
    let round = build_level1_round(&failed_entries);

    assert_eq!(round.questions.len(), failed_entries.len());
}

#[test]
fn build_level3_round_filters_entries() {
    let entries = vec![
        sample_entry("I", NerveType::Sensory, "Smell", "", 1),
        sample_entry("IX", NerveType::Both, "Taste", "Pharyngeal phase", 2),
    ];

    let round = build_level3_round(&entries).expect("level3 round");
    assert_eq!(round.entries.len(), 1);
    assert_eq!(round.entries[0].name, "IX");

    let no_roles = vec![sample_entry("I", NerveType::Sensory, "Smell", "", 1)];
    assert!(build_level3_round(&no_roles).is_err());
}

#[test]
fn loads_two_records_from_plain_csv() {
    let data = "name,type,fuction,role in swallowing\nOlfactory,sensory,Smell,none\nVagus,both,Parasympathetic,Pharyngeal phase\n";
    let entries = load_entries_from_reader(data.as_bytes()).expect("load entries");

    assert_eq!(entries.len(), 2);
    assert_eq!(entries[0].name, "Olfactory");
    assert_eq!(entries[0].type_value, NerveType::Sensory);
    assert_eq!(entries[0].function, "Smell");
    assert_eq!(entries[0].role_in_swallowing, "");
    assert_eq!(entries[0].order, 1);
    assert_eq!(entries[1].name, "Vagus");
    assert_eq!(entries[1].type_value, NerveType::Both);
    assert_eq!(entries[1].function, "Parasympathetic");
    assert_eq!(entries[1].role_in_swallowing, "Pharyngeal phase");
    assert_eq!(entries[1].order, 2);
}

#[test]
fn normalize_role_blanks_empty_and_none() {
    assert_eq!(normalize_role(""), "");
    assert_eq!(normalize_role("   "), "");
    assert_eq!(normalize_role("none"), "");
    assert_eq!(normalize_role(" NoNe "), "");
    assert_eq!(normalize_role("  Pharyngeal phase  "), "Pharyngeal phase");
}

#[test]
fn normalization_is_idempotent_on_examples() {
    let once = normalize_header(" Fuction ");
    assert_eq!(normalize_header(&once), once);
    let header = normalize_header("\u{feff} Role In Swallowing ");
    assert_eq!(normalize_header(&header), header);
    let role = normalize_role("  Oral phase ");
    assert_eq!(normalize_role(&role), role);
    let blank = normalize_role(" none ");
    assert_eq!(normalize_role(&blank), blank);
}

#[test]
fn parse_type_rejects_empty_and_trims() {
    assert_eq!(parse_type("  BOTH  ", 2).unwrap(), NerveType::Both);
    let err = parse_type("   ", 7).unwrap_err();
    assert!(matches!(err, LoadError::MissingField { row: 7, field: Field::Type }));
    let err = parse_type(" mixed ", 4).unwrap_err();
    match err {
        LoadError::InvalidValue { row, field, value } => {
            assert_eq!(row, 4);
            assert_eq!(field, Field::Type);
            assert_eq!(value, "mixed");
        }
        other => panic!("unexpected error: {:?}", other),
    }
}

#[test]
fn missing_name_column_aborts_before_rows() {
    let data = "type,fuction\nsensory,Smell\nbogus-type-never-reached,X\n";
    let err = load_entries_from_reader(data.as_bytes()).unwrap_err();
    assert!(matches!(err, LoadError::MissingColumn { column: Field::Name }));
}

#[test]
fn missing_function_column_is_reported() {
    let data = "name,type\nOlfactory,sensory\n";
    let err = load_entries_from_reader(data.as_bytes()).unwrap_err();
    assert!(matches!(err, LoadError::MissingColumn { column: Field::Function }));
}

#[test]
fn missing_field_reports_row_number() {
    let data = "name,type,function\nA,sensory,F\n  ,motor,G\n";
    let err = load_entries_from_reader(data.as_bytes()).unwrap_err();
    assert!(matches!(err, LoadError::MissingField { row: 2, field: Field::Name }));

    let data = "name,type,function\nA,sensory,\n";
    let err = load_entries_from_reader(data.as_bytes()).unwrap_err();
    assert!(matches!(err, LoadError::MissingField { row: 1, field: Field::Function }));
}

#[test]
fn invalid_type_reports_row_and_value() {
    let data = "name,type,function\nX,mixed,Y\n";
    let err = load_entries_from_reader(data.as_bytes()).unwrap_err();
    match err {
        LoadError::InvalidValue { row, field, value } => {
            assert_eq!(row, 1);
            assert_eq!(field, Field::Type);
            assert_eq!(value, "mixed");
        }
        other => panic!("unexpected error: {:?}", other),
    }
}

#[test]
fn role_column_is_optional_and_rows_may_be_short() {
    let data = "name,type,function\nA,sensory,F\nB,motor\n";
    let err = load_entries_from_reader(data.as_bytes()).unwrap_err();
    assert!(matches!(err, LoadError::MissingField { row: 2, field: Field::Function }));

    let data = "name,type,function\nA,sensory,F\n";
    let entries = load_entries_from_reader(data.as_bytes()).expect("load entries");
    assert_eq!(entries.len(), 1);
    assert_eq!(entries[0].role_in_swallowing, "");
}

#[test]
fn quoted_fields_parse_as_one_value() {
    let data = "name,type,function\n\"A, B\",sensory,\" F \"\n";
    let entries = load_entries_from_reader(data.as_bytes()).expect("load entries");
    assert_eq!(entries.len(), 1);
    assert_eq!(entries[0].name, "A, B");
    assert_eq!(entries[0].function, "F");
}

#[test]
fn columns_may_come_in_any_order() {
    let data = "function,name,type\nSmell,Olfactory,sensory\n";
    let entries = load_entries_from_reader(data.as_bytes()).expect("load entries");
    assert_eq!(entries.len(), 1);
    assert_eq!(entries[0].name, "Olfactory");
    assert_eq!(entries[0].function, "Smell");
}

#[test]
fn build_level2_round_is_a_permutation() {
    let entries = vec![
        sample_entry("I", NerveType::Sensory, "Smell", "", 1),
        sample_entry("II", NerveType::Sensory, "Vision", "", 2),
        sample_entry("II", NerveType::Motor, "Duplicate name", "", 3),
        sample_entry("IV", NerveType::Motor, "Eye movement", "", 4),
    ];
    let round = build_level2_round(&entries);
    assert_eq!(round.entries.len(), entries.len());
    let mut got: Vec<usize> = round.entries.iter().map(|e| e.order).collect();
    got.sort();
    assert_eq!(got, vec![1, 2, 3, 4]);
    let mut names: Vec<String> = round.entries.iter().map(|e| e.name.clone()).collect();
    names.sort();
    assert_eq!(names, vec!["I", "II", "II", "IV"]);
}

#[test]
fn build_level1_round_option_counts_are_exact() {
    let entries = vec![
        sample_entry("I", NerveType::Sensory, "Smell", "", 1),
        sample_entry("II", NerveType::Sensory, "Vision", "", 2),
    ];
    let round = build_level1_round(&entries);
    for question in &round.questions {
        // one other name exists, so exactly two options
        assert_eq!(question.name_options.len(), 2);
        let own = question
            .name_options
            .iter()
            .filter(|o| **o == question.entry.name)
            .count();
        assert_eq!(own, 1);
    }

    let many = vec![
        sample_entry("I", NerveType::Sensory, "Smell", "", 1),
        sample_entry("II", NerveType::Sensory, "Vision", "", 2),
        sample_entry("III", NerveType::Motor, "Eye movement", "", 3),
        sample_entry("IV", NerveType::Motor, "Eye movement", "", 4),
        sample_entry("V", NerveType::Both, "Face", "", 5),
    ];
    let round = build_level1_round(&many);
    let pool: Vec<String> = many.iter().map(|e| e.name.clone()).collect();
    for question in &round.questions {
        assert_eq!(question.name_options.len(), 4);
        for option in &question.name_options {
            assert!(pool.contains(option));
        }
    }
}

#[test]
fn build_level3_round_unavailable_on_blank_roles() {
    let entries = vec![
        sample_entry("I", NerveType::Sensory, "Smell", "", 1),
        sample_entry("II", NerveType::Sensory, "Vision", "   ", 2),
    ];
    let err = build_level3_round(&entries).unwrap_err();
    assert_eq!(err, RoundError::Unavailable);
}

#[test]
fn checked_builders_reject_empty_input() {
    let empty: Vec<StudyEntry> = vec![];
    assert_eq!(build_level1_round_checked(&empty).unwrap_err(), RoundError::EmptyInput);
    assert_eq!(build_level2_round_checked(&empty).unwrap_err(), RoundError::EmptyInput);

    let one = vec![sample_entry("I", NerveType::Sensory, "Smell", "", 1)];
    let round = build_level1_round_checked(&one).expect("one entry is enough");
    assert_eq!(round.questions.len(), 1);
    assert_eq!(round.questions[0].name_options, vec!["I"]);
    let round = build_level2_round_checked(&one).expect("one entry is enough");
    assert_eq!(round.entries.len(), 1);
}

#[test]
fn build_level1_round_excludes_duplicate_own_names_from_pool() {
    // Two records share the name "II": for either of them the distractor
    // pool holds only "IV", while for "IV" the pool holds "II" twice.
    let entries = vec![
        sample_entry("II", NerveType::Sensory, "Vision", "", 1),
        sample_entry("II", NerveType::Motor, "Duplicate", "", 2),
        sample_entry("IV", NerveType::Motor, "Eye movement", "", 3),
    ];
    let round = build_level1_round(&entries);
    assert_eq!(round.questions.len(), 3);
    for question in &round.questions {
        if question.entry.name == "II" {
            assert_eq!(question.name_options.len(), 2);
        } else {
            assert_eq!(question.name_options.len(), 3);
        }
        let own = question
            .name_options
            .iter()
            .filter(|o| **o == question.entry.name)
            .count();
        assert_eq!(own, 1);
    }
}
