use zero2prod::configuration::DatabaseSettings;
use zero2prod::provision::{ProvisionStep, Provisioner};
use zero2prod::telemetry::InitGuard;

fn base_settings() -> DatabaseSettings {
    DatabaseSettings {
        username: String::from("postgres"),
        password: String::from("password"),
        port: 5432,
        host: String::from("localhost"),
        database_name: String::from("newsletter"),
    }
}

#[test]
fn lifecycle_walks_the_steps_in_order() {
    let mut p = Provisioner::new(base_settings());
    assert_eq!(ProvisionStep::Unconfigured, p.step);

    p.assign_name();
    assert_eq!(ProvisionStep::NameAssigned, p.step);
    let name = p.settings.database_name.clone();

    let create = p.creation_statement();
    assert_eq!(format!("CREATE DATABASE \"{}\";", name), create);
    p.mark_created();
    assert_eq!(ProvisionStep::Created, p.step);

    assert_eq!(
        "CREATE TABLE subscriptions (name TEXT NOT NULL, email TEXT NOT NULL);",
        p.migration_statement()
    );
    p.mark_migrated();
    assert_eq!(ProvisionStep::Migrated, p.step);

    p.mark_pool_ready();
    assert_eq!(ProvisionStep::PoolReady, p.step);

    p.mark_closed();
    assert_eq!(ProvisionStep::Closed, p.step);

    let drop = p.drop_statement();
    assert_eq!(format!("DROP DATABASE \"{}\";", name), drop);
    p.mark_dropped();
    assert_eq!(ProvisionStep::Dropped, p.step);

    assert_eq!(name, p.settings.database_name);
}

#[test]
fn assigned_name_is_a_fresh_token() {
    let mut p = Provisioner::new(base_settings());
    p.assign_name();
    let name = &p.settings.database_name;
    assert_eq!(36, name.len());
    assert!(name
        .chars()
        .all(|c| c == '-' || c.is_ascii_digit() || ('a' <= c && c <= 'f')));
    assert_ne!("newsletter", name.as_str());
}

#[test]
fn concurrent_runs_get_distinct_names() {
    let mut names = Vec::new();
    for _ in 0..16 {
        let mut p = Provisioner::new(base_settings());
        p.assign_name();
        names.push(p.settings.database_name.clone());
    }
    for i in 0..names.len() {
        for j in 0..i {
            assert_ne!(names[i], names[j]);
        }
    }
}

#[test]
fn assigning_a_name_touches_nothing_else() {
    let mut p = Provisioner::new(base_settings());
    p.assign_name();
    assert_eq!("postgres", p.settings.username);
    assert_eq!("password", p.settings.password);
    assert_eq!(5432, p.settings.port);
    assert_eq!("localhost", p.settings.host);
}

#[test]
fn init_guard_hands_the_work_to_the_first_caller_only() {
    let mut guard = InitGuard::new();
    assert!(guard.try_init());
    assert!(!guard.try_init());
    assert!(!guard.try_init());
}
