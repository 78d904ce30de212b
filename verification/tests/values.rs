use xlsx2csv::value::{cell_type, normalize, resolve_value, CellType};

fn shared() -> Vec<String> {
    vec!["Hello".to_string(), "World".to_string()]
}

#[test]
fn cell_types_by_code() {
    assert_eq!(cell_type("s"), CellType::SharedString);
    assert_eq!(cell_type("b"), CellType::Bool);
    assert_eq!(cell_type("inlineStr"), CellType::InlineStr);
    assert_eq!(cell_type("str"), CellType::PlainStr);
    assert_eq!(cell_type("e"), CellType::Error);
    assert_eq!(cell_type("n"), CellType::Number);
    assert_eq!(cell_type(""), CellType::Number);
    assert_eq!(cell_type("S"), CellType::Number);
    assert_eq!(cell_type("d"), CellType::Number);
}

#[test]
fn shared_string_cells_resolve_through_the_table() {
    assert_eq!(resolve_value(CellType::SharedString, "0".to_string(), &shared()), "Hello");
    assert_eq!(resolve_value(CellType::SharedString, " 1 ".to_string(), &shared()), "World");
    assert_eq!(resolve_value(CellType::SharedString, "+1".to_string(), &shared()), "World");
}

#[test]
fn resolving_an_index_twice_gives_the_same_string() {
    let table = shared();
    let first = resolve_value(CellType::SharedString, "1".to_string(), &table);
    let second = resolve_value(CellType::SharedString, "1".to_string(), &table);
    assert_eq!(first, second);
    assert_eq!(table, shared());
}

#[test]
fn an_index_beyond_the_table_gives_the_empty_string() {
    assert_eq!(resolve_value(CellType::SharedString, "2".to_string(), &shared()), "");
    assert_eq!(resolve_value(CellType::SharedString, "999".to_string(), &shared()), "");
    assert_eq!(resolve_value(CellType::SharedString, "0".to_string(), &Vec::new()), "");
}

#[test]
fn text_that_is_no_index_stays_as_it_is() {
    assert_eq!(resolve_value(CellType::SharedString, " abc ".to_string(), &shared()), " abc ");
    assert_eq!(resolve_value(CellType::SharedString, "-1".to_string(), &shared()), "-1");
    assert_eq!(resolve_value(CellType::SharedString, "".to_string(), &shared()), "");
    assert_eq!(resolve_value(CellType::SharedString, "1.0".to_string(), &shared()), "1.0");
}

#[test]
fn booleans_read_one_and_zero() {
    assert_eq!(resolve_value(CellType::Bool, "1".to_string(), &shared()), "true");
    assert_eq!(resolve_value(CellType::Bool, "0".to_string(), &shared()), "false");
    assert_eq!(resolve_value(CellType::Bool, " 1\n".to_string(), &shared()), "true");
    assert_eq!(resolve_value(CellType::Bool, "TRUE".to_string(), &shared()), "TRUE");
    assert_eq!(resolve_value(CellType::Bool, "2".to_string(), &shared()), "2");
    assert_eq!(resolve_value(CellType::Bool, " yes ".to_string(), &shared()), "yes");
    assert_eq!(resolve_value(CellType::Bool, "".to_string(), &shared()), "");
}

#[test]
fn other_cells_keep_their_raw_text() {
    for t in [CellType::InlineStr, CellType::PlainStr, CellType::Error, CellType::Number] {
        assert_eq!(resolve_value(t, " 1 ".to_string(), &shared()), " 1 ");
        assert_eq!(resolve_value(t, "0.10".to_string(), &shared()), "0.10");
    }
}

#[test]
fn escaping_writes_breaks_and_tabs_as_two_characters() {
    assert_eq!(normalize("a\rb\nc\td".to_string(), true, false), "a\\rb\\nc\\td");
    assert_eq!(normalize("plain".to_string(), true, false), "plain");
    assert_eq!(normalize("".to_string(), true, false), "");
}

#[test]
fn escaping_takes_precedence() {
    assert_eq!(normalize("a\nb".to_string(), true, true), "a\\nb");
}

#[test]
fn line_breaks_become_spaces() {
    assert_eq!(normalize("a\rb\nc\td".to_string(), false, true), "a b c d");
    assert_eq!(normalize("a\r\nb".to_string(), false, true), "a  b");
}

#[test]
fn values_pass_unchanged_without_a_mode() {
    assert_eq!(normalize("a\rb\nc\td".to_string(), false, false), "a\rb\nc\td");
}

#[test]
fn escaping_twice_leaves_backslashes_alone() {
    let once = normalize("a\\b\nc\\nd".to_string(), true, false);
    assert_eq!(once, "a\\b\\nc\\nd");
    let twice = normalize(once.clone(), true, false);
    assert_eq!(twice, once);
}
