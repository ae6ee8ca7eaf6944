use fiberglass::scan::{capture, extension, sanitized_extension, scan_argument, scan_arguments, Argument, Replacement};

fn arg(text: &str, found: bool) -> Argument {
    Argument { text: text.to_string(), found }
}

#[test]
fn listed_absolute_existing_file_is_replaced() {
    let mut reps: Vec<Replacement> = Vec::new();
    let r = scan_argument("/tmp/a.png".to_string(), true, &mut reps);
    assert_eq!(r, "0.png");
    assert_eq!(reps.len(), 1);
    assert_eq!(reps[0].name, "0.png");
    assert_eq!(reps[0].path, "/tmp/a.png");
}

#[test]
fn second_replacement_is_numbered_one() {
    let mut reps: Vec<Replacement> = Vec::new();
    scan_argument("/tmp/a.png".to_string(), true, &mut reps);
    let r = scan_argument("/home/u/photo.jpg".to_string(), true, &mut reps);
    assert_eq!(r, "1.jpg");
    assert_eq!(reps.len(), 2);
    assert_eq!(reps[1].path, "/home/u/photo.jpg");
}

#[test]
fn names_past_nine_use_two_digits() {
    let mut reps: Vec<Replacement> = Vec::new();
    for _ in 0..10 {
        scan_argument("/tmp/a.gif".to_string(), true, &mut reps);
    }
    let r = scan_argument("/tmp/b.webp".to_string(), true, &mut reps);
    assert_eq!(r, "10.webp");
    assert_eq!(reps.len(), 11);
}

#[test]
fn unlisted_extension_passes_through() {
    let mut reps: Vec<Replacement> = Vec::new();
    let r = scan_argument("/etc/passwd.txt".to_string(), true, &mut reps);
    assert_eq!(r, "/etc/passwd.txt");
    assert!(reps.is_empty());
}

#[test]
fn extension_case_matters() {
    let mut reps: Vec<Replacement> = Vec::new();
    let r = scan_argument("/tmp/A.PNG".to_string(), true, &mut reps);
    assert_eq!(r, "/tmp/A.PNG");
    assert!(reps.is_empty());
}

#[test]
fn missing_file_passes_through() {
    let mut reps: Vec<Replacement> = Vec::new();
    let r = scan_argument("/tmp/none.png".to_string(), false, &mut reps);
    assert_eq!(r, "/tmp/none.png");
    assert!(reps.is_empty());
}

#[test]
fn relative_path_passes_through() {
    let mut reps: Vec<Replacement> = Vec::new();
    let r = scan_argument("a.png".to_string(), true, &mut reps);
    assert_eq!(r, "a.png");
    assert!(reps.is_empty());
}

#[test]
fn empty_argument_passes_through() {
    let mut reps: Vec<Replacement> = Vec::new();
    let r = scan_argument(String::new(), true, &mut reps);
    assert_eq!(r, "");
    assert!(reps.is_empty());
}

#[test]
fn extension_of_paths() {
    assert_eq!(extension("/tmp/a.tar.gz"), Some("gz".to_string()));
    assert_eq!(extension("/tmp/.bashrc"), None);
    assert_eq!(extension("/tmp/x"), None);
    assert_eq!(extension("/a.b/c"), None);
    assert_eq!(extension("/tmp/.."), None);
    assert_eq!(extension("/tmp/a."), Some(String::new()));
    assert_eq!(extension("b.svg"), Some("svg".to_string()));
}

#[test]
fn sanitized_extensions() {
    assert_eq!(sanitized_extension(Some("png")), ".png");
    assert_eq!(sanitized_extension(Some("jpeg")), ".jpeg");
    assert_eq!(sanitized_extension(Some("mp4")), ".mp4");
    assert_eq!(sanitized_extension(Some("icc")), ".icc");
    assert_eq!(sanitized_extension(Some("webm")), ".webm");
    assert_eq!(sanitized_extension(Some("exe")), "");
    assert_eq!(sanitized_extension(Some("PNG")), "");
    assert_eq!(sanitized_extension(None), "");
}

#[test]
fn convert_invocation_scans_one_file() {
    let inv = scan_arguments(
        "/usr/bin/convert".to_string(),
        vec![arg("/tmp/a.png", true), arg("out.txt", false)],
    );
    assert_eq!(inv.program, "/usr/bin/convert");
    assert_eq!(inv.args, vec!["0.png".to_string(), "out.txt".to_string()]);
    assert_eq!(inv.replacements.len(), 1);
    assert_eq!(inv.replacements[0].name, "0.png");
    assert_eq!(inv.replacements[0].path, "/tmp/a.png");
}

#[test]
fn capture_needs_a_program() {
    assert!(capture(vec![]).is_none());
    assert!(capture(vec![arg("client", false)]).is_none());
    let inv = capture(vec![arg("client", false), arg("/bin/ls", true)]).unwrap();
    assert_eq!(inv.program, "/bin/ls");
    assert!(inv.args.is_empty());
    assert!(inv.replacements.is_empty());
}

#[test]
fn capture_scans_arguments_after_program() {
    let inv = capture(vec![
        arg("client", false),
        arg("/usr/bin/convert", true),
        arg("/tmp/a.png", true),
        arg("-resize", false),
        arg("/tmp/b.svg", true),
    ])
    .unwrap();
    assert_eq!(inv.args, vec!["0.png".to_string(), "-resize".to_string(), "1.svg".to_string()]);
    assert_eq!(inv.replacements[1].path, "/tmp/b.svg");
}
