use ngenrs::cdata::{cstr_to_rust, CArray, CBuf, CText};
use ngenrs::net::{
    ngenrs_http_client_config, ngenrs_http_client_init, ngenrs_http_client_release,
    ngenrs_http_download, ngenrs_http_finish, ngenrs_http_get, ngenrs_http_parse_rsp_body,
    ngenrs_http_parse_rsp_headers, ngenrs_http_parse_rsp_status, ngenrs_http_post,
    ngenrs_http_upload, FetchOutcome, HttpOp, HttpRequest, HttpResponse, NetBoundary,
};

fn ctext(s: &str) -> CText {
    CText::Bytes(s.as_bytes().to_vec())
}

/// A stub server: answers `https://example.test/ok` with status 200 and the
/// body `"pong"`, and fails every other URL.
fn stub_server(req: &HttpRequest) -> FetchOutcome {
    if req.url == "https://example.test/ok" {
        FetchOutcome::Success(HttpResponse {
            status: 200,
            headers: vec![(String::from("content-type"), String::from("text/plain"))],
            body: Some(String::from("pong")),
        })
    } else {
        FetchOutcome::Failure
    }
}

fn init_client(b: &mut NetBoundary) -> usize {
    let built = ngenrs_http_client_config(&CText::Null);
    ngenrs_http_client_init(b, built)
}

#[test]
fn init_with_null_trust_root_succeeds() {
    let mut b = NetBoundary::new();
    let built = ngenrs_http_client_config(&CText::Null);
    let c = built.expect("a null trust-root path never refuses construction");
    assert!(c.trust_root.is_none());
    let h = ngenrs_http_client_init(&mut b, Some(c));
    assert_ne!(h, 0);
    ngenrs_http_client_release(&mut b, h);
}

#[test]
fn init_with_undecodable_path_refuses() {
    let built = ngenrs_http_client_config(&CText::Bytes(vec![0xff, 0xfe]));
    assert!(built.is_none());
    let mut b = NetBoundary::new();
    assert_eq!(ngenrs_http_client_init(&mut b, None), 0);
}

#[test]
fn init_decodes_trust_root_path() {
    let built = ngenrs_http_client_config(&ctext("/certs/root.pem"));
    let c = built.expect("a decodable path is accepted");
    assert_eq!(c.trust_root, Some(String::from("/certs/root.pem")));
}

#[test]
fn get_with_null_client_yields_null_response() {
    let b = NetBoundary::new();
    let r = ngenrs_http_get(&b, 0, &ctext("https://example.test/ok"), &CArray::Null, &CArray::Null, 0, &CText::Null);
    assert!(r.is_none());
}

#[test]
fn get_with_unparsable_url_yields_null_response() {
    let mut b = NetBoundary::new();
    let client = init_client(&mut b);
    let bad_url = CText::Bytes(vec![0xc3, 0x28]);
    let r = ngenrs_http_get(&b, client, &bad_url, &CArray::Null, &CArray::Null, 0, &CText::Null);
    assert!(r.is_none());
    let r = ngenrs_http_get(&b, client, &CText::Null, &CArray::Null, &CArray::Null, 0, &CText::Null);
    assert!(r.is_none());
    ngenrs_http_client_release(&mut b, client);
}

#[test]
fn get_pong_scenario() {
    let mut b = NetBoundary::new();
    let client = init_client(&mut b);
    assert_ne!(client, 0);
    let req = ngenrs_http_get(
        &b,
        client,
        &ctext("https://example.test/ok"),
        &CArray::Null,
        &CArray::Null,
        0,
        &CText::Null,
    )
    .expect("a live client and a decodable URL yield a request");
    assert_eq!(req.url, "https://example.test/ok");
    assert!(req.headers.is_none());
    match &req.op {
        HttpOp::Get { body } => assert!(body.is_none()),
        _ => panic!("a GET entry point prepares a GET operation"),
    }
    let outcome = stub_server(&req);
    let rsp = ngenrs_http_finish(&mut b, outcome);
    assert_ne!(rsp, 0);
    assert_eq!(ngenrs_http_parse_rsp_status(&b, rsp), 200);
    let body = ngenrs_http_parse_rsp_body(&b, rsp);
    assert_eq!(cstr_to_rust(&body), Some(String::from("pong")));
    let (ck, cv, n) = ngenrs_http_parse_rsp_headers(&b, rsp).expect("a live handle has headers");
    assert_eq!(n, 1);
    assert_eq!(cstr_to_rust(&ck[0]), Some(String::from("content-type")));
    assert_eq!(cstr_to_rust(&cv[0]), Some(String::from("text/plain")));
}

#[test]
fn failed_fetch_collapses_to_null_handle() {
    let mut b = NetBoundary::new();
    let client = init_client(&mut b);
    let req = ngenrs_http_get(
        &b,
        client,
        &ctext("https://example.test/missing"),
        &CArray::Null,
        &CArray::Null,
        0,
        &CText::Null,
    )
    .expect("decoding succeeds; only the fetch fails");
    let rsp = ngenrs_http_finish(&mut b, stub_server(&req));
    assert_eq!(rsp, 0);
}

#[test]
fn post_decodes_body_and_json() {
    let mut b = NetBoundary::new();
    let client = init_client(&mut b);
    let jk = CArray::Items(vec![ctext("k")]);
    let jv = CArray::Items(vec![ctext("v")]);
    let req = ngenrs_http_post(
        &b,
        client,
        &ctext("https://example.test/ok"),
        &CArray::Null,
        &CArray::Null,
        0,
        &ctext("payload"),
        &jk,
        &jv,
        1,
    )
    .expect("a live client and a decodable URL yield a request");
    match &req.op {
        HttpOp::Post { body, json } => {
            assert_eq!(body.as_deref(), Some("payload"));
            let json = json.as_ref().expect("non-null arrays decode to a mapping");
            assert_eq!(json.get(&String::from("k")), Some(&String::from("v")));
        }
        _ => panic!("a POST entry point prepares a POST operation"),
    }
}

#[test]
fn null_optional_body_behaves_as_omitted() {
    let mut b = NetBoundary::new();
    let client = init_client(&mut b);
    let with_null = ngenrs_http_get(
        &b,
        client,
        &ctext("https://example.test/ok"),
        &CArray::Null,
        &CArray::Null,
        0,
        &CText::Null,
    )
    .unwrap();
    match &with_null.op {
        HttpOp::Get { body } => assert!(body.is_none()),
        _ => unreachable!(),
    }
}

#[test]
fn download_with_null_path_falls_back_to_empty() {
    let mut b = NetBoundary::new();
    let client = init_client(&mut b);
    let req = ngenrs_http_download(
        &b,
        client,
        &ctext("https://example.test/ok"),
        &CArray::Null,
        &CArray::Null,
        0,
        &CText::Null,
    )
    .unwrap();
    match &req.op {
        HttpOp::Download { output_path } => assert_eq!(output_path, ""),
        _ => panic!("a download entry point prepares a download operation"),
    }
}

#[test]
fn upload_with_zero_parts_succeeds() {
    let mut b = NetBoundary::new();
    let client = init_client(&mut b);
    let req = ngenrs_http_upload(
        &b,
        client,
        &ctext("https://example.test/ok"),
        &CArray::Null,
        &CArray::Null,
        0,
        &Vec::new(),
        &Vec::new(),
        &Vec::new(),
        &Vec::new(),
        0,
    )
    .expect("zero parts must not fail");
    match &req.op {
        HttpOp::Upload { parts } => assert!(parts.is_empty()),
        _ => panic!("an upload entry point prepares an upload operation"),
    }
    let rsp = ngenrs_http_finish(&mut b, stub_server(&req));
    assert_ne!(rsp, 0);
    assert_eq!(ngenrs_http_parse_rsp_status(&b, rsp), 200);
}

#[test]
fn upload_decodes_parts_with_optional_fields() {
    let mut b = NetBoundary::new();
    let client = init_client(&mut b);
    let req = ngenrs_http_upload(
        &b,
        client,
        &ctext("https://example.test/ok"),
        &CArray::Null,
        &CArray::Null,
        0,
        &vec![ctext("file"), ctext("note")],
        &vec![CBuf::Buf(vec![1, 2, 3]), CBuf::Buf(vec![])],
        &vec![ctext("application/octet-stream"), CText::Null],
        &vec![ctext("a.bin"), CText::Null],
        2,
    )
    .expect("well-formed parts decode");
    match &req.op {
        HttpOp::Upload { parts } => {
            assert_eq!(parts.len(), 2);
            assert_eq!(parts[0].name, "file");
            assert_eq!(parts[0].data, vec![1, 2, 3]);
            assert_eq!(parts[0].mime.as_deref(), Some("application/octet-stream"));
            assert_eq!(parts[0].filename.as_deref(), Some("a.bin"));
            assert_eq!(parts[1].name, "note");
            assert!(parts[1].data.is_empty());
            assert!(parts[1].mime.is_none());
            assert!(parts[1].filename.is_none());
        }
        _ => panic!("an upload entry point prepares an upload operation"),
    }
}

#[test]
fn upload_with_null_payload_fails() {
    let mut b = NetBoundary::new();
    let client = init_client(&mut b);
    let r = ngenrs_http_upload(
        &b,
        client,
        &ctext("https://example.test/ok"),
        &CArray::Null,
        &CArray::Null,
        0,
        &vec![ctext("file")],
        &vec![CBuf::Null],
        &vec![CText::Null],
        &vec![CText::Null],
        1,
    );
    assert!(r.is_none());
}

#[test]
fn accessors_on_null_handle_return_sentinels() {
    let b = NetBoundary::new();
    assert_eq!(ngenrs_http_parse_rsp_status(&b, 0), -1);
    assert!(matches!(ngenrs_http_parse_rsp_body(&b, 0), CText::Null));
    assert!(ngenrs_http_parse_rsp_headers(&b, 0).is_none());
}

#[test]
fn bodiless_response_has_null_body() {
    let mut b = NetBoundary::new();
    let rsp = ngenrs_http_finish(
        &mut b,
        FetchOutcome::Success(HttpResponse { status: 204, headers: Vec::new(), body: None }),
    );
    assert_ne!(rsp, 0);
    assert_eq!(ngenrs_http_parse_rsp_status(&b, rsp), 204);
    assert!(matches!(ngenrs_http_parse_rsp_body(&b, rsp), CText::Null));
}

#[test]
fn later_header_overwrites_earlier_in_collapse() {
    let mut b = NetBoundary::new();
    let rsp = ngenrs_http_finish(
        &mut b,
        FetchOutcome::Success(HttpResponse {
            status: 200,
            headers: vec![
                (String::from("x-tag"), String::from("first")),
                (String::from("x-tag"), String::from("second")),
            ],
            body: None,
        }),
    );
    let (ck, cv, n) = ngenrs_http_parse_rsp_headers(&b, rsp).unwrap();
    assert_eq!(n, 1);
    assert_eq!(cstr_to_rust(&ck[0]), Some(String::from("x-tag")));
    assert_eq!(cstr_to_rust(&cv[0]), Some(String::from("second")));
}

#[test]
fn boundary_handles_balance_out() {
    let mut b = NetBoundary::new();
    let client = init_client(&mut b);
    let req = ngenrs_http_get(
        &b,
        client,
        &ctext("https://example.test/ok"),
        &CArray::Null,
        &CArray::Null,
        0,
        &CText::Null,
    )
    .unwrap();
    let rsp = ngenrs_http_finish(&mut b, stub_server(&req));
    assert_eq!(b.clients.live_handles(), 1);
    assert_eq!(b.responses.live_handles(), 1);
    ngenrs::handle::ngenrs_free_ptr(&mut b.responses, rsp);
    ngenrs_http_client_release(&mut b, client);
    assert_eq!(b.clients.live_handles(), 0);
    assert_eq!(b.responses.live_handles(), 0);
}
