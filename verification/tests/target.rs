use sysunit::models::target::{clone_target, same_target};
use sysunit::models::Target;
use sysunit::parser::parse_target;
use sysunit::parser::target::target;

#[test]
fn test_target() {
    let input = "ssh://user@host";
    let result = target(input);
    assert_eq!(result, Ok(("", Target::new("ssh", Some("user"), "host"))));

    let input = "ssh://host";
    let result = target(input);
    assert_eq!(result, Ok(("", Target::new("ssh", None, "host"))));
}

#[test]
fn targets_display_as_they_are_written() {
    assert_eq!(Target::new("ssh", Some("user"), "host").to_string(), "ssh://user@host");
    assert_eq!(Target::new("local", None, "localhost").to_string(), "local://localhost");
    assert_eq!(Target::new("ssh", Some("user"), "host").user_host_string(), "user@host");
    assert_eq!(Target::new("ssh", None, "host").user_host_string(), "host");
}

#[test]
fn targets_are_the_same_when_all_their_parts_are() {
    let a = Target::new("ssh", Some("user"), "host");
    assert!(a.same(&a.clone()));
    assert!(!a.same(&Target::new("ssh", None, "host")));
    assert!(!a.same(&Target::new("ssh", Some("other"), "host")));
    assert!(!a.same(&Target::new("podman", Some("user"), "host")));
    assert!(!a.same(&Target::new("ssh", Some("user"), "other")));
    assert!(same_target(&None, &None));
    assert!(!same_target(&Some(a.clone()), &None));
    assert!(same_target(&Some(a.clone()), &clone_target(&Some(a))));
}

#[test]
fn parse_target_reads_the_whole_input() {
    assert_eq!(parse_target(" podman://box ").unwrap(), Target::new("podman", None, "box"));
    assert_eq!(
        parse_target("ssh://ops@db-1.example.org").unwrap(),
        Target::new("ssh", Some("ops"), "db-1.example.org")
    );
    assert!(parse_target("ssh://").is_err());
    assert!(parse_target("host").is_err());
    assert!(parse_target("ssh://a@b@c").is_err());
    assert!(parse_target("ssh:/host").is_err());
}
