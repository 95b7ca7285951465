use devhub::launch::remote_terminal_args;

#[test]
fn remote_terminal_enters_the_folder_and_starts_a_login_shell() {
    let (program, args, label) = remote_terminal_args("dev@build", "'/srv/my app'");
    assert_eq!(program, "ssh");
    assert_eq!(
        args,
        vec![
            "-tt".to_string(),
            "dev@build".to_string(),
            "cd -- '/srv/my app' && exec \"${SHELL:-/bin/sh}\" -l".to_string(),
        ]
    );
    assert_eq!(label, "ssh dev@build");
}
