use fcp::remote::{
    auth_plan, auth_step, join_path, mkdir_command, parent_dir, quote_for_shell, AuthMethod,
    AuthStep,
};

#[test]
fn auth_methods_in_fixed_order() {
    assert_eq!(
        auth_plan(true, true),
        vec![AuthMethod::Agent, AuthMethod::KeyFile, AuthMethod::EnvPassword, AuthMethod::Prompt]
    );
    assert_eq!(auth_plan(false, false), vec![AuthMethod::Agent, AuthMethod::Prompt]);
    assert_eq!(
        auth_plan(false, true),
        vec![AuthMethod::Agent, AuthMethod::EnvPassword, AuthMethod::Prompt]
    );
}

#[test]
fn joins_paths() {
    assert_eq!(join_path("/srv", "a/b.txt"), "/srv/a/b.txt");
    assert_eq!(join_path("/srv/", "a"), "/srv/a");
    assert_eq!(join_path("", "a"), "a");
}

#[test]
fn parents_of_paths() {
    assert_eq!(parent_dir("/srv/a/b.txt"), "/srv/a");
    assert_eq!(parent_dir("/b.txt"), "/");
    assert_eq!(parent_dir("b.txt"), "");
}

#[test]
fn mkdir_command_quotes_its_argument() {
    assert_eq!(mkdir_command("/tmp/a b"), "mkdir -p '/tmp/a b'");
    assert_eq!(quote_for_shell("it's"), "'it'\\''s'");
    assert_eq!(quote_for_shell(""), "''");
}

#[test]
fn auth_stops_at_first_success_and_fails_after_the_last() {
    let plan = auth_plan(true, false);
    assert_eq!(auth_step(&plan, 0, true), AuthStep::Authenticated);
    assert_eq!(auth_step(&plan, 0, false), AuthStep::Try(AuthMethod::KeyFile));
    assert_eq!(auth_step(&plan, 1, false), AuthStep::Try(AuthMethod::Prompt));
    assert_eq!(auth_step(&plan, 2, false), AuthStep::Fail);
    assert_eq!(auth_step(&plan, 2, true), AuthStep::Authenticated);
}
