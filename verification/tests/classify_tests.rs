use kaval::identify_service;
use kaval::classify::{identify_by_port, identify_by_process_name};
use kaval::ServiceCategory;

#[test]
fn name_rule_postgres() {
    let (label, cat) = identify_service(1234, "postgres");
    assert_eq!(label, Some("PostgreSQL"));
    assert_eq!(cat, ServiceCategory::Database);
}

#[test]
fn name_rule_is_case_insensitive() {
    let (label, cat) = identify_service(1234, "PostgreSQL-Server");
    assert_eq!(label, Some("PostgreSQL"));
    assert_eq!(cat, ServiceCategory::Database);
}

#[test]
fn name_rules_take_precedence_over_port() {
    // port 5432 alone would say PostgreSQL; the name rule wins
    let (label, cat) = identify_service(5432, "redis-server");
    assert_eq!(label, Some("Redis"));
    assert_eq!(cat, ServiceCategory::Cache);
}

#[test]
fn port_stage_reached_when_no_name_rule_matches() {
    let (label, cat) = identify_service(5173, "node");
    assert_eq!(label, Some("Vite"));
    assert_eq!(cat, ServiceCategory::DevServer);
}

#[test]
fn unknown_when_neither_stage_matches() {
    let (label, cat) = identify_service(12345, "myapp");
    assert_eq!(label, None);
    assert_eq!(cat, ServiceCategory::Unknown);
}

#[test]
fn redis_equality_rule() {
    let (label, cat) = identify_service(0, "redis");
    assert_eq!(label, Some("Redis"));
    assert_eq!(cat, ServiceCategory::Cache);
    // "redisx" is not equal to "redis" and contains no other rule pattern
    let (label2, _) = identify_service(0, "redisx");
    assert_eq!(label2, None);
}

#[test]
fn vscode_prefix_rule() {
    let r = identify_by_process_name("Code - Insiders");
    assert_eq!(r, Some((Some("VS Code"), ServiceCategory::DevServer)));
}

#[test]
fn cursor_needs_both_words() {
    assert_eq!(
        identify_by_process_name("Cursor Helper (Renderer)"),
        Some((Some("Cursor"), ServiceCategory::DevServer))
    );
    assert_eq!(identify_by_process_name("cursor"), None);
}

#[test]
fn browser_helper_rules() {
    assert_eq!(
        identify_by_process_name("Google Chrome Helper"),
        Some((Some("Chrome"), ServiceCategory::Browser))
    );
    assert_eq!(
        identify_by_process_name("Brave Browser"),
        Some((Some("Brave"), ServiceCategory::Browser))
    );
    assert_eq!(
        identify_by_process_name("firefox"),
        Some((Some("Firefox"), ServiceCategory::Browser))
    );
}

#[test]
fn port_table_exact_values() {
    assert_eq!(identify_by_port(3000), (Some("Next.js / Rails"), ServiceCategory::DevServer));
    assert_eq!(identify_by_port(5174), (Some("Vite"), ServiceCategory::DevServer));
    assert_eq!(identify_by_port(5432), (Some("PostgreSQL"), ServiceCategory::Database));
    assert_eq!(identify_by_port(6379), (Some("Redis"), ServiceCategory::Cache));
    assert_eq!(identify_by_port(2376), (Some("Docker"), ServiceCategory::Container));
    assert_eq!(identify_by_port(22), (Some("SSH"), ServiceCategory::System));
    assert_eq!(identify_by_port(2019), (Some("Caddy Admin"), ServiceCategory::System));
    assert_eq!(identify_by_port(1), (None, ServiceCategory::Unknown));
}

#[test]
fn classification_is_total_and_deterministic() {
    // same inputs always give the same single result
    for port in [0u16, 80, 5432, 65535] {
        for name in ["", "postgres", "zzz", "Docker Desktop"] {
            let a = identify_service(port, name);
            let b = identify_service(port, name);
            assert_eq!(a, b);
        }
    }
}
