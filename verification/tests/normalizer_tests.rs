use blockchain::normalizer::{Error, Program};
use blockchain::version::Version;

#[test]
fn parse_echo() {
    let version = "1";
    let config = "minimina";
    let cmd = "echo hello";
    let args: Vec<String> = vec![
        "program-output-normalizer".to_string(),
        "-v".to_string(),
        version.to_string(),
        "--config".to_string(),
        config.to_string(),
        "-c".to_string(),
        cmd.to_string(),
    ];
    let res = Program::parse_args(&args).unwrap();

    assert_eq!(res.version, Version::new(version.parse::<u32>().unwrap()));
    assert_eq!(res.config, config.to_string());
    assert_eq!(res.command, cmd.to_string());
}

#[test]
fn parse_args_long_flags() {
    let args: Vec<String> = vec![
        "normalizer".to_string(),
        "--version".to_string(),
        "7".to_string(),
        "--command".to_string(),
        "true".to_string(),
        "--config".to_string(),
        "local".to_string(),
    ];
    let res = Program::parse_args(&args).unwrap();
    assert_eq!(res.version, Version::new(7));
    assert_eq!(res.config, "local");
    assert_eq!(res.command, "true");
}

#[test]
fn parse_args_rejects_bad_input() {
    // A flag without its value.
    let args: Vec<String> = vec!["n".to_string(), "-v".to_string()];
    assert!(Program::parse_args(&args).is_none());
    // An unknown flag.
    let args: Vec<String> = vec![
        "n".to_string(),
        "--verbose".to_string(),
        "1".to_string(),
    ];
    assert!(Program::parse_args(&args).is_none());
    // A version that is not a number.
    let args: Vec<String> = vec![
        "n".to_string(),
        "-v".to_string(),
        "one".to_string(),
        "--config".to_string(),
        "c".to_string(),
        "-c".to_string(),
        "true".to_string(),
    ];
    assert!(Program::parse_args(&args).is_none());
    // A missing required flag.
    let args: Vec<String> = vec![
        "n".to_string(),
        "-v".to_string(),
        "1".to_string(),
        "--config".to_string(),
        "c".to_string(),
    ];
    assert!(Program::parse_args(&args).is_none());
}

#[test]
fn error_records_its_parts() {
    let e = Error::new(Version::new(3), "boom".to_string());
    assert_eq!(e.version, Version::new(3));
    assert_eq!(e.error, "boom");
}

#[test]
fn version_renders_decimal() {
    assert_eq!(Version::new(42).render(), "42");
}
