use wgi::sandbox::{cgi_sandbox, lambda_sandbox, StdoutSink};

#[test]
fn cgi_sandbox_gets_env_and_stdin() {
    let vars = vec![(b"REQUEST_METHOD".to_vec(), b"POST".to_vec())];
    let plan = cgi_sandbox(&vars, b"hi");
    assert_eq!(plan.program_name, "wgi-bin");
    assert_eq!(plan.preopen, vec![".".to_string()]);
    assert_eq!(plan.env, vars);
    assert_eq!(plan.stdin, Some(b"hi".to_vec()));
    assert_eq!(plan.stdout, StdoutSink::Capture);
}

#[test]
fn lambda_sandbox_logs_stdout() {
    let plan = lambda_sandbox();
    assert_eq!(plan.program_name, "lambda");
    assert_eq!(plan.preopen, vec![".".to_string()]);
    assert!(plan.env.is_empty());
    assert_eq!(plan.stdin, None);
    assert_eq!(plan.stdout, StdoutSink::Log);
}
