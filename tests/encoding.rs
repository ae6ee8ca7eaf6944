use fiberglass::codec::{decode_bytes, encode_bytes};
use fiberglass::scan::{scan_arguments, Argument};
use fiberglass::session::prepare_request;
use fiberglass::wire::encode_request;

fn arg(text: &str, found: bool) -> Argument {
    Argument { text: text.to_string(), found }
}

#[test]
fn convert_request_text() {
    let inv = scan_arguments(
        "/usr/bin/convert".to_string(),
        vec![arg("/tmp/a.png", true), arg("out.txt", false)],
    );
    let body = encode_request(&inv, &vec![b"PNGDATA".to_vec()]);
    assert_eq!(body, "L3Vzci9iaW4vY29udmVydA==\nMC5wbmc=,b3V0LnR4dA==,\n0.png:UE5HREFUQQ==\n");
}

#[test]
fn no_arguments_still_ends_argument_line() {
    let inv = scan_arguments("/bin/ls".to_string(), vec![]);
    let body = encode_request(&inv, &vec![]);
    assert_eq!(body, "L2Jpbi9scw==\n\n");
}

#[test]
fn no_files_leaves_file_section_empty() {
    let inv = scan_arguments("/bin/ls".to_string(), vec![arg("-l", false), arg("/tmp/x.txt", true)]);
    assert!(inv.replacements.is_empty());
    let body = encode_request(&inv, &vec![]);
    assert_eq!(body, "L2Jpbi9scw==\nLWw=,L3RtcC94LnR4dA==,\n");
}

#[test]
fn empty_file_is_an_empty_payload() {
    let inv = scan_arguments("/bin/cat".to_string(), vec![arg("/tmp/e.gif", true)]);
    let body = encode_request(&inv, &vec![vec![]]);
    assert_eq!(body, "L2Jpbi9jYXQ=\nMC5naWY=,\n0.gif:\n");
}

#[test]
fn base64_round_trip() {
    let data: Vec<u8> = (0..=255u8).collect();
    let text = encode_bytes(&data);
    assert_eq!(decode_bytes(text.as_bytes()), Some(data));
    assert_eq!(decode_bytes(encode_bytes(b"").as_bytes()), Some(vec![]));
    assert_eq!(encode_bytes(b"hi"), "aGk=");
}

#[test]
fn invalid_base64_is_rejected() {
    assert_eq!(decode_bytes(b"a"), None);
    assert_eq!(decode_bytes(b"!!!!"), None);
}

#[test]
fn no_endpoint_no_request() {
    let inv = scan_arguments("/bin/ls".to_string(), vec![]);
    assert!(prepare_request(None, &inv, &vec![]).is_none());
}

#[test]
fn endpoint_gets_the_request() {
    let inv = scan_arguments("/bin/ls".to_string(), vec![]);
    let out = prepare_request(Some("http://x/run".to_string()), &inv, &vec![]).unwrap();
    assert_eq!(out.url, "http://x/run");
    assert_eq!(out.body, "L2Jpbi9scw==\n\n");
}
