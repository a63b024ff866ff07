//! The service classifier: maps a process name or a port number to a
//! known-service label and category. Name-based rules are tried first;
//! the port table is consulted only when no name rule matches.

use vstd::prelude::*;

use crate::models::ServiceCategory;
use crate::text::{contains_ci, eq_ci, starts_with_ci, str_contains_ci, str_eq_ci,
    str_starts_with_ci};

verus! {

/// The ordered name-based rule catalog. The first matching rule wins;
/// each rule pattern belongs to exactly one category.
pub open spec fn spec_identify_by_name(name: Seq<char>) -> Option<(Seq<char>, ServiceCategory)> {
    if contains_ci(name, "postgres"@) || contains_ci(name, "postmaster"@) {
        Some(("PostgreSQL"@, ServiceCategory::Database))
    } else if contains_ci(name, "mysql"@) || contains_ci(name, "mariadbd"@) || contains_ci(
        name,
        "mariadb"@,
    ) {
        Some(("MySQL"@, ServiceCategory::Database))
    } else if contains_ci(name, "mongod"@) || contains_ci(name, "mongos"@) {
        Some(("MongoDB"@, ServiceCategory::Database))
    } else if contains_ci(name, "redis-server"@) || eq_ci(name, "redis"@) {
        Some(("Redis"@, ServiceCategory::Cache))
    } else if contains_ci(name, "memcached"@) {
        Some(("Memcached"@, ServiceCategory::Cache))
    } else if contains_ci(name, "docker"@) || contains_ci(name, "containerd"@) {
        Some(("Docker"@, ServiceCategory::Container))
    } else if contains_ci(name, "colima"@) {
        Some(("Colima"@, ServiceCategory::Container))
    } else if contains_ci(name, "ollama"@) {
        Some(("Ollama"@, ServiceCategory::DevServer))
    } else if contains_ci(name, "code helper"@) || starts_with_ci(name, "code - "@) {
        Some(("VS Code"@, ServiceCategory::DevServer))
    } else if contains_ci(name, "cursor"@) && contains_ci(name, "helper"@) {
        Some(("Cursor"@, ServiceCategory::DevServer))
    } else if contains_ci(name, "electron"@) {
        Some(("Electron"@, ServiceCategory::DevServer))
    } else if contains_ci(name, "brave browser"@) || contains_ci(name, "brave helper"@) {
        Some(("Brave"@, ServiceCategory::Browser))
    } else if contains_ci(name, "google chrome"@) || contains_ci(name, "chrome helper"@) {
        Some(("Chrome"@, ServiceCategory::Browser))
    } else if contains_ci(name, "firefox"@) || contains_ci(name, "geckodriver"@) {
        Some(("Firefox"@, ServiceCategory::Browser))
    } else if contains_ci(name, "safari"@) || contains_ci(name, "webkit"@) {
        Some(("Safari"@, ServiceCategory::Browser))
    } else if contains_ci(name, "sshd"@) {
        Some(("SSH"@, ServiceCategory::System))
    } else if contains_ci(name, "nginx"@) {
        Some(("Nginx"@, ServiceCategory::System))
    } else if contains_ci(name, "httpd"@) || contains_ci(name, "apache"@) {
        Some(("Apache"@, ServiceCategory::System))
    } else if contains_ci(name, "controlcenter"@) {
        Some(("AirPlay"@, ServiceCategory::System))
    } else if contains_ci(name, "sharingd"@) {
        Some(("Sharing"@, ServiceCategory::System))
    } else if contains_ci(name, "rapportd"@) {
        Some(("Rapport"@, ServiceCategory::System))
    } else if contains_ci(name, "identityservicesd"@) {
        Some(("Identity"@, ServiceCategory::System))
    } else if contains_ci(name, "grafana"@) {
        Some(("Grafana"@, ServiceCategory::System))
    } else if contains_ci(name, "prometheus"@) {
        Some(("Prometheus"@, ServiceCategory::System))
    } else if contains_ci(name, "caddy"@) {
        Some(("Caddy"@, ServiceCategory::System))
    } else {
        None
    }
}

/// The static port table, consulted when no name rule matched.
pub open spec fn spec_identify_by_port(port: u16) -> (Option<Seq<char>>, ServiceCategory) {
    if port == 3000 {
        (Some("Next.js / Rails"@), ServiceCategory::DevServer)
    } else if port == 3001 {
        (Some("React Dev"@), ServiceCategory::DevServer)
    } else if port == 4000 {
        (Some("Phoenix"@), ServiceCategory::DevServer)
    } else if port == 4200 {
        (Some("Angular"@), ServiceCategory::DevServer)
    } else if port == 5173 || port == 5174 {
        (Some("Vite"@), ServiceCategory::DevServer)
    } else if port == 8000 {
        (Some("Django / FastAPI"@), ServiceCategory::DevServer)
    } else if port == 8080 {
        (Some("HTTP Alt"@), ServiceCategory::DevServer)
    } else if port == 8443 {
        (Some("HTTPS Alt"@), ServiceCategory::DevServer)
    } else if port == 8888 {
        (Some("Jupyter"@), ServiceCategory::DevServer)
    } else if port == 9000 {
        (Some("PHP-FPM"@), ServiceCategory::DevServer)
    } else if port == 19006 {
        (Some("Expo"@), ServiceCategory::DevServer)
    } else if port == 3306 {
        (Some("MySQL"@), ServiceCategory::Database)
    } else if port == 5432 {
        (Some("PostgreSQL"@), ServiceCategory::Database)
    } else if port == 5433 {
        (Some("PostgreSQL Alt"@), ServiceCategory::Database)
    } else if port == 27017 {
        (Some("MongoDB"@), ServiceCategory::Database)
    } else if port == 26257 {
        (Some("CockroachDB"@), ServiceCategory::Database)
    } else if port == 6379 {
        (Some("Redis"@), ServiceCategory::Cache)
    } else if port == 11211 {
        (Some("Memcached"@), ServiceCategory::Cache)
    } else if port == 9092 {
        (Some("Kafka"@), ServiceCategory::Cache)
    } else if port == 5672 {
        (Some("RabbitMQ"@), ServiceCategory::Cache)
    } else if port == 15672 {
        (Some("RabbitMQ UI"@), ServiceCategory::Cache)
    } else if port == 2375 || port == 2376 {
        (Some("Docker"@), ServiceCategory::Container)
    } else if port == 11434 {
        (Some("Ollama"@), ServiceCategory::DevServer)
    } else if port == 22 {
        (Some("SSH"@), ServiceCategory::System)
    } else if port == 80 {
        (Some("HTTP"@), ServiceCategory::System)
    } else if port == 443 {
        (Some("HTTPS"@), ServiceCategory::System)
    } else if port == 53 {
        (Some("DNS"@), ServiceCategory::System)
    } else if port == 9090 {
        (Some("Prometheus"@), ServiceCategory::System)
    } else if port == 2019 {
        (Some("Caddy Admin"@), ServiceCategory::System)
    } else {
        (None, ServiceCategory::Unknown)
    }
}

/// The full two-stage classification: name rules first, then the port
/// table. Total: every pair yields exactly one result.
pub open spec fn spec_identify(port: u16, name: Seq<char>) -> (Option<Seq<char>>, ServiceCategory) {
    match spec_identify_by_name(name) {
        Some((l, c)) => (Some(l), c),
        None => spec_identify_by_port(port),
    }
}

/// Name-based stage of the classifier; matching is case-insensitive.
pub fn identify_by_process_name(name: &str) -> (r: Option<
    (Option<&'static str>, ServiceCategory),
>)
    ensures
        r is Some <==> spec_identify_by_name(name@) is Some,
        r matches Some(p) ==> ({
            &&& spec_identify_by_name(name@) matches Some(q)
            &&& p.0 matches Some(l) && l@ == q.0
            &&& p.1 == q.1
        }),
{
    if str_contains_ci(name, "postgres") || str_contains_ci(name, "postmaster") {
        return Some((Some("PostgreSQL"), ServiceCategory::Database));
    }
    if str_contains_ci(name, "mysql") || str_contains_ci(name, "mariadbd") || str_contains_ci(
        name,
        "mariadb",
    ) {
        return Some((Some("MySQL"), ServiceCategory::Database));
    }
    if str_contains_ci(name, "mongod") || str_contains_ci(name, "mongos") {
        return Some((Some("MongoDB"), ServiceCategory::Database));
    }
    if str_contains_ci(name, "redis-server") || str_eq_ci(name, "redis") {
        return Some((Some("Redis"), ServiceCategory::Cache));
    }
    if str_contains_ci(name, "memcached") {
        return Some((Some("Memcached"), ServiceCategory::Cache));
    }
    if str_contains_ci(name, "docker") || str_contains_ci(name, "containerd") {
        return Some((Some("Docker"), ServiceCategory::Container));
    }
    if str_contains_ci(name, "colima") {
        return Some((Some("Colima"), ServiceCategory::Container));
    }
    if str_contains_ci(name, "ollama") {
        return Some((Some("Ollama"), ServiceCategory::DevServer));
    }
    if str_contains_ci(name, "code helper") || str_starts_with_ci(name, "code - ") {
        return Some((Some("VS Code"), ServiceCategory::DevServer));
    }
    if str_contains_ci(name, "cursor") && str_contains_ci(name, "helper") {
        return Some((Some("Cursor"), ServiceCategory::DevServer));
    }
    if str_contains_ci(name, "electron") {
        return Some((Some("Electron"), ServiceCategory::DevServer));
    }
    if str_contains_ci(name, "brave browser") || str_contains_ci(name, "brave helper") {
        return Some((Some("Brave"), ServiceCategory::Browser));
    }
    if str_contains_ci(name, "google chrome") || str_contains_ci(name, "chrome helper") {
        return Some((Some("Chrome"), ServiceCategory::Browser));
    }
    if str_contains_ci(name, "firefox") || str_contains_ci(name, "geckodriver") {
        return Some((Some("Firefox"), ServiceCategory::Browser));
    }
    if str_contains_ci(name, "safari") || str_contains_ci(name, "webkit") {
        return Some((Some("Safari"), ServiceCategory::Browser));
    }
    if str_contains_ci(name, "sshd") {
        return Some((Some("SSH"), ServiceCategory::System));
    }
    if str_contains_ci(name, "nginx") {
        return Some((Some("Nginx"), ServiceCategory::System));
    }
    if str_contains_ci(name, "httpd") || str_contains_ci(name, "apache") {
        return Some((Some("Apache"), ServiceCategory::System));
    }
    if str_contains_ci(name, "controlcenter") {
        return Some((Some("AirPlay"), ServiceCategory::System));
    }
    if str_contains_ci(name, "sharingd") {
        return Some((Some("Sharing"), ServiceCategory::System));
    }
    if str_contains_ci(name, "rapportd") {
        return Some((Some("Rapport"), ServiceCategory::System));
    }
    if str_contains_ci(name, "identityservicesd") {
        return Some((Some("Identity"), ServiceCategory::System));
    }
    if str_contains_ci(name, "grafana") {
        return Some((Some("Grafana"), ServiceCategory::System));
    }
    if str_contains_ci(name, "prometheus") {
        return Some((Some("Prometheus"), ServiceCategory::System));
    }
    if str_contains_ci(name, "caddy") {
        return Some((Some("Caddy"), ServiceCategory::System));
    }
    None
}

/// Port-based stage of the classifier: exact lookup in the static table.
pub fn identify_by_port(port: u16) -> (r: (Option<&'static str>, ServiceCategory))
    ensures
        r.1 == spec_identify_by_port(port).1,
        r.0 is Some <==> spec_identify_by_port(port).0 is Some,
        r.0 matches Some(l) ==> spec_identify_by_port(port).0 matches Some(sl) && l@ == sl,
{
    match port {
        3000 => (Some("Next.js / Rails"), ServiceCategory::DevServer),
        3001 => (Some("React Dev"), ServiceCategory::DevServer),
        4000 => (Some("Phoenix"), ServiceCategory::DevServer),
        4200 => (Some("Angular"), ServiceCategory::DevServer),
        5173 | 5174 => (Some("Vite"), ServiceCategory::DevServer),
        8000 => (Some("Django / FastAPI"), ServiceCategory::DevServer),
        8080 => (Some("HTTP Alt"), ServiceCategory::DevServer),
        8443 => (Some("HTTPS Alt"), ServiceCategory::DevServer),
        8888 => (Some("Jupyter"), ServiceCategory::DevServer),
        9000 => (Some("PHP-FPM"), ServiceCategory::DevServer),
        19006 => (Some("Expo"), ServiceCategory::DevServer),
        3306 => (Some("MySQL"), ServiceCategory::Database),
        5432 => (Some("PostgreSQL"), ServiceCategory::Database),
        5433 => (Some("PostgreSQL Alt"), ServiceCategory::Database),
        27017 => (Some("MongoDB"), ServiceCategory::Database),
        26257 => (Some("CockroachDB"), ServiceCategory::Database),
        6379 => (Some("Redis"), ServiceCategory::Cache),
        11211 => (Some("Memcached"), ServiceCategory::Cache),
        9092 => (Some("Kafka"), ServiceCategory::Cache),
        5672 => (Some("RabbitMQ"), ServiceCategory::Cache),
        15672 => (Some("RabbitMQ UI"), ServiceCategory::Cache),
        2375 | 2376 => (Some("Docker"), ServiceCategory::Container),
        11434 => (Some("Ollama"), ServiceCategory::DevServer),
        22 => (Some("SSH"), ServiceCategory::System),
        80 => (Some("HTTP"), ServiceCategory::System),
        443 => (Some("HTTPS"), ServiceCategory::System),
        53 => (Some("DNS"), ServiceCategory::System),
        9090 => (Some("Prometheus"), ServiceCategory::System),
        2019 => (Some("Caddy Admin"), ServiceCategory::System),
        _ => (None, ServiceCategory::Unknown),
    }
}

/// Classify an endpoint: the process name is tried first, the port
/// table only when no name rule matches.
pub fn identify_service(port: u16, process_name: &str) -> (r: (
    Option<&'static str>,
    ServiceCategory,
))
    ensures
        r.1 == spec_identify(port, process_name@).1,
        r.0 is Some <==> spec_identify(port, process_name@).0 is Some,
        r.0 matches Some(l) ==> spec_identify(port, process_name@).0 matches Some(sl) && l@ == sl,
{
    match identify_by_process_name(process_name) {
        Some(result) => result,
        None => identify_by_port(port),
    }
}

/// Name rules always take precedence over port rules: when a name rule
/// matches, the port plays no part in the result, and the port table
/// decides only when no name rule matches.
pub proof fn lemma_name_rules_take_precedence(port: u16, name: Seq<char>)
    ensures
        spec_identify_by_name(name) matches Some(lc) ==> spec_identify(port, name) == (
            Some(lc.0),
            lc.1,
        ),
        spec_identify_by_name(name) is None ==> spec_identify(port, name) == spec_identify_by_port(
            port,
        ),
{
}

} // verus!
