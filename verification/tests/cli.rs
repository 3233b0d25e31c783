use bengal::cli::{parse_dep, parse_search_path, split_once};

#[test]
fn dep_splits_at_first_equals() {
    assert_eq!(parse_dep("math=lib/math.bengalmod"), Ok(("math".to_string(), "lib/math.bengalmod".to_string())));
    assert_eq!(parse_dep("a=b=c"), Ok(("a".to_string(), "b=c".to_string())));
    assert_eq!(parse_dep("a="), Ok(("a".to_string(), "".to_string())));
}

#[test]
fn dep_errors() {
    assert_eq!(
        parse_dep("math"),
        Err("invalid dep format 'math', expected name=path.bengalmod".to_string())
    );
    assert_eq!(parse_dep("=x.bengalmod"), Err("dep name cannot be empty".to_string()));
}

#[test]
fn search_path_kinds() {
    assert_eq!(parse_search_path("bengal=/opt/lib"), Ok(("bengal".to_string(), "/opt/lib".to_string())));
    assert_eq!(parse_search_path("native=/usr/lib"), Ok(("native".to_string(), "/usr/lib".to_string())));
    assert_eq!(
        parse_search_path("other=/x"),
        Err("unsupported -L kind 'other': expected 'bengal' or 'native'".to_string())
    );
    assert_eq!(
        parse_search_path("/usr/lib"),
        Err("unsupported -L form: expected '-L bengal=<path>' or '-L native=<path>', got '-L /usr/lib'".to_string())
    );
}

#[test]
fn split_once_handles_multibyte_text() {
    assert_eq!(split_once("é=ü=x", '='), Some(("é", "ü=x")));
    assert_eq!(split_once("none", '='), None);
}
