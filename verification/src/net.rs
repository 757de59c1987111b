//! The callable surface of the boundary: client construction and release,
//! the four request operations, and the response accessors.
//!
//! The HTTP engine itself is an external collaborator. Each request entry
//! point is the decode phase: it turns the foreign inputs into the request
//! the engine is asked to perform, or refuses with `None` — exactly when the
//! client handle is null or the URL fails text decoding — in which case the
//! caller hands the null response out without consulting the engine. The
//! completion phase wraps whatever outcome the engine reports: a success
//! becomes a fresh opaque response handle, any failure collapses to the null
//! handle. The caller cannot distinguish failure causes through this
//! boundary by design.

use vstd::prelude::*;

verus! {

use crate::cdata::{CText, CBuf, CArray, cstr_to_rust, rust_to_cstr, decoded_text, decoded_bytes,
    encoded_text};
use crate::handle::{Arena, box_into_raw_new, ngenrs_free_ptr};
use crate::mapping::{StringMap, mapping_of, map_of_entries, representable_dom,
    rust_map_from_c_arrays, rust_map_to_c_arrays};

/// The configuration under which the external HTTP engine builds a client:
/// a trust-root path, or the platform default trust store.
pub struct HttpClient {
    pub trust_root: Option<String>,
}

/// The outcome of one request as the external engine reports it: a numeric
/// status, an ordered header multimap, and an optional body.
pub struct HttpResponse {
    pub status: u16,
    pub headers: Vec<(String, String)>,
    pub body: Option<String>,
}

/// One part of a multipart upload: a name, a byte payload, and optional
/// MIME type and filename.
pub struct UploadPart {
    pub name: String,
    pub data: Vec<u8>,
    pub mime: Option<String>,
    pub filename: Option<String>,
}

/// The operation a request entry point asks the external engine to perform.
pub enum HttpOp {
    Get { body: Option<String> },
    Post { body: Option<String>, json: Option<StringMap> },
    Download { output_path: String },
    Upload { parts: Vec<UploadPart> },
}

/// A fully decoded request, ready for the engine.
pub struct HttpRequest {
    pub url: String,
    pub headers: Option<StringMap>,
    pub op: HttpOp,
}

/// What came back from the engine for one submitted request.
pub enum FetchOutcome {
    Success(HttpResponse),
    Failure,
}

/// The boundary's handle state: every client and every response handed out.
pub struct NetBoundary {
    pub clients: Arena<HttpClient>,
    pub responses: Arena<HttpResponse>,
}

impl NetBoundary {
    /// A boundary with nothing handed out yet.
    pub fn new() -> (b: NetBoundary)
        ensures
            b.clients.live_count() == 0,
            b.responses.live_count() == 0,
            forall|h: usize| !b.clients.live(h),
            forall|h: usize| !b.responses.live(h),
    {
        NetBoundary { clients: Arena::new(), responses: Arena::new() }
    }
}

/// A present-but-malformed foreign text decodes to the empty text; only a
/// null pointer means the field was not supplied.
pub open spec fn decoded_or_empty(c: Option<Seq<u8>>) -> Seq<char> {
    match decoded_text(c) {
        Some(s) => s,
        None => Seq::empty(),
    }
}

/// An optional native field matches the optional foreign field it came
/// from: absent exactly on a null pointer, so a null optional parameter
/// behaves identically to omitting the field.
pub open spec fn opt_field_matches(f: Option<String>, c: Option<Seq<u8>>) -> bool {
    match f {
        None => c is None,
        Some(s) => c is Some && s@ == decoded_or_empty(c),
    }
}

/// The decoded header mapping matches the foreign arrays it came from:
/// no mapping exactly when either array is null.
pub open spec fn headers_match(
    h: Option<StringMap>,
    ks: Option<Seq<Option<Seq<u8>>>>,
    vs: Option<Seq<Option<Seq<u8>>>>,
) -> bool {
    match h {
        None => ks is None || vs is None,
        Some(m) => ks is Some && vs is Some && m.wf() && m@ == mapping_of(
            ks->Some_0,
            vs->Some_0,
        ),
    }
}

/// Every upload payload is present and within pointer-arithmetic limits.
pub open spec fn all_parts_decodable(ds: Seq<Option<Seq<u8>>>) -> bool {
    forall|i: int| 0 <= i < ds.len() ==> decoded_bytes(#[trigger] ds[i]) is Some
}

/// A decoded upload part matches the foreign fields it came from.
pub open spec fn part_matches(
    p: UploadPart,
    name: Option<Seq<u8>>,
    data: Option<Seq<u8>>,
    mime: Option<Seq<u8>>,
    filename: Option<Seq<u8>>,
) -> bool {
    &&& p.name@ == decoded_or_empty(name)
    &&& decoded_bytes(data) == Some(p.data@)
    &&& opt_field_matches(p.mime, mime)
    &&& opt_field_matches(p.filename, filename)
}

/// The mapping a response's headers collapse to: a later header of a name
/// overwrites an earlier one.
pub open spec fn collapsed_headers(resp: HttpResponse) -> Map<Seq<char>, Seq<char>> {
    map_of_entries(resp.headers.deep_view())
}

/// Decodes an optional foreign text field: a null pointer means the field
/// was not supplied, and a malformed field decodes to the empty text.
fn decode_opt_field(c: &CText) -> (r: Option<String>)
    ensures
        opt_field_matches(r, c@),
{
    match c {
        CText::Null => None,
        _ => match cstr_to_rust(c) {
            Some(s) => Some(s),
            None => Some(String::new()),
        },
    }
}

/// Decodes a foreign text field that is structurally required but may be
/// absent or malformed, in which case it falls back to the empty text.
fn decode_field_or_empty(c: &CText) -> (r: String)
    ensures
        r@ == decoded_or_empty(c@),
{
    match cstr_to_rust(c) {
        Some(s) => s,
        None => String::new(),
    }
}

/// Decode phase of client construction: the configuration the external
/// engine is to be built with. A null trust-root path selects the platform
/// default trust store; a path that fails text decoding refuses
/// construction, the single fatal-at-construction path.
pub fn ngenrs_http_client_config(ca_cert_path: &CText) -> (r: Option<HttpClient>)
    ensures
        ca_cert_path@ is None ==> (r matches Some(c) && c.trust_root is None),
        r is None <==> ca_cert_path@ is Some && decoded_text(ca_cert_path@) is None,
        ca_cert_path@ is Some ==> match r {
            Some(c) => c.trust_root matches Some(p) && decoded_text(ca_cert_path@) == Some(p@),
            None => true,
        },
{
    match ca_cert_path {
        CText::Null => Some(HttpClient { trust_root: None }),
        _ => match cstr_to_rust(ca_cert_path) {
            Some(p) => Some(HttpClient { trust_root: Some(p) }),
            None => None,
        },
    }
}

/// Completion phase of client construction: moves an engine-built client
/// behind a fresh opaque handle, or hands out the null sentinel when the
/// engine could not be constructed. A non-null handle is never returned for
/// a failed construction, and no partial handle is leaked by a failure.
pub fn ngenrs_http_client_init(b: &mut NetBoundary, built: Option<HttpClient>) -> (h: usize)
    ensures
        built is None <==> h == 0,
        built is None ==> *final(b) == *old(b),
        built matches Some(c) ==> {
            &&& !old(b).clients.live(h)
            &&& final(b).clients.live(h)
            &&& final(b).clients.value_of(h) == c
            &&& forall|g: usize| g != h ==> final(b).clients.live(g) == old(b).clients.live(g)
            &&& forall|g: usize|
                g != h && old(b).clients.live(g) ==> final(b).clients.value_of(g) == old(
                    b,
                ).clients.value_of(g)
            &&& final(b).clients.live_count() == old(b).clients.live_count() + 1
            &&& final(b).responses == old(b).responses
        },
{
    match built {
        Some(c) => box_into_raw_new(&mut b.clients, c),
        None => 0,
    }
}

/// Releases a client handle: a no-op on null, the single sanctioned release
/// of a live client otherwise. Releasing twice, or making any call with the
/// handle afterwards, is the caller's breach of the handle discipline,
/// stated here as a precondition rather than detected at run time.
pub fn ngenrs_http_client_release(b: &mut NetBoundary, client: usize)
    requires
        client == 0 || old(b).clients.live(client),
    ensures
        client == 0 ==> *final(b) == *old(b),
        client != 0 ==> !final(b).clients.live(client),
        client != 0 ==> final(b).clients.live_count() + 1 == old(b).clients.live_count(),
        forall|g: usize| g != client ==> final(b).clients.live(g) == old(b).clients.live(g),
        forall|g: usize|
            g != client && old(b).clients.live(g) ==> final(b).clients.value_of(g) == old(
                b,
            ).clients.value_of(g),
        final(b).responses == old(b).responses,
{
    ngenrs_free_ptr(&mut b.clients, client)
}

/// Decode phase of a GET request: the request the engine is asked to
/// perform, or `None` exactly when the client handle is null or the URL
/// fails text decoding — never a crash.
pub fn ngenrs_http_get(
    b: &NetBoundary,
    client: usize,
    url: &CText,
    header_keys: &CArray,
    header_values: &CArray,
    headers_len: usize,
    body: &CText,
) -> (r: Option<HttpRequest>)
    requires
        client == 0 || b.clients.live(client),
        header_keys@ matches Some(ks) ==> ks.len() == headers_len,
        header_values@ matches Some(vs) ==> vs.len() == headers_len,
    ensures
        r is None <==> client == 0 || decoded_text(url@) is None,
        r matches Some(req) ==> {
            &&& decoded_text(url@) == Some(req.url@)
            &&& headers_match(req.headers, header_keys@, header_values@)
            &&& req.op matches HttpOp::Get { body: rb } && opt_field_matches(rb, body@)
        },
{
    if client == 0 {
        return None;
    }
    let url_s = match cstr_to_rust(url) {
        Some(u) => u,
        None => { return None },
    };
    let headers = rust_map_from_c_arrays(header_keys, header_values, headers_len);
    let body_s = decode_opt_field(body);
    Some(HttpRequest { url: url_s, headers, op: HttpOp::Get { body: body_s } })
}

/// Decode phase of a POST request: as for GET, with a second pair of
/// parallel arrays decoded to an optional JSON object mapping.
pub fn ngenrs_http_post(
    b: &NetBoundary,
    client: usize,
    url: &CText,
    header_keys: &CArray,
    header_values: &CArray,
    headers_len: usize,
    body: &CText,
    json_keys: &CArray,
    json_values: &CArray,
    json_len: usize,
) -> (r: Option<HttpRequest>)
    requires
        client == 0 || b.clients.live(client),
        header_keys@ matches Some(ks) ==> ks.len() == headers_len,
        header_values@ matches Some(vs) ==> vs.len() == headers_len,
        json_keys@ matches Some(ks) ==> ks.len() == json_len,
        json_values@ matches Some(vs) ==> vs.len() == json_len,
    ensures
        r is None <==> client == 0 || decoded_text(url@) is None,
        r matches Some(req) ==> {
            &&& decoded_text(url@) == Some(req.url@)
            &&& headers_match(req.headers, header_keys@, header_values@)
            &&& req.op matches HttpOp::Post { body: rb, json: rj } && opt_field_matches(rb, body@)
                && headers_match(rj, json_keys@, json_values@)
        },
{
    if client == 0 {
        return None;
    }
    let url_s = match cstr_to_rust(url) {
        Some(u) => u,
        None => { return None },
    };
    let headers = rust_map_from_c_arrays(header_keys, header_values, headers_len);
    let body_s = decode_opt_field(body);
    let json = rust_map_from_c_arrays(json_keys, json_values, json_len);
    Some(HttpRequest { url: url_s, headers, op: HttpOp::Post { body: body_s, json } })
}

/// Decode phase of a download request: as for GET, with the output path
/// decoded leniently — a null or malformed path falls back to the empty
/// text, and the engine then refuses it.
pub fn ngenrs_http_download(
    b: &NetBoundary,
    client: usize,
    url: &CText,
    header_keys: &CArray,
    header_values: &CArray,
    headers_len: usize,
    output_path: &CText,
) -> (r: Option<HttpRequest>)
    requires
        client == 0 || b.clients.live(client),
        header_keys@ matches Some(ks) ==> ks.len() == headers_len,
        header_values@ matches Some(vs) ==> vs.len() == headers_len,
    ensures
        r is None <==> client == 0 || decoded_text(url@) is None,
        r matches Some(req) ==> {
            &&& decoded_text(url@) == Some(req.url@)
            &&& headers_match(req.headers, header_keys@, header_values@)
            &&& req.op matches HttpOp::Download { output_path: p } && p@ == decoded_or_empty(
                output_path@,
            )
        },
{
    if client == 0 {
        return None;
    }
    let url_s = match cstr_to_rust(url) {
        Some(u) => u,
        None => { return None },
    };
    let headers = rust_map_from_c_arrays(header_keys, header_values, headers_len);
    let path = decode_field_or_empty(output_path);
    Some(HttpRequest { url: url_s, headers, op: HttpOp::Download { output_path: path } })
}

/// Decode phase of a multipart upload: the part arrays are read entry by
/// entry, each payload validated against pointer-arithmetic limits before
/// any copy occurs. Zero parts succeed with an empty part list. `None`
/// exactly when the client handle is null, the URL fails text decoding, or
/// some payload is absent or over the limit.
pub fn ngenrs_http_upload(
    b: &NetBoundary,
    client: usize,
    url: &CText,
    header_keys: &CArray,
    header_values: &CArray,
    headers_len: usize,
    part_names: &Vec<CText>,
    part_data: &Vec<CBuf>,
    part_mimes: &Vec<CText>,
    part_filenames: &Vec<CText>,
    parts_len: usize,
) -> (r: Option<HttpRequest>)
    requires
        client == 0 || b.clients.live(client),
        header_keys@ matches Some(ks) ==> ks.len() == headers_len,
        header_values@ matches Some(vs) ==> vs.len() == headers_len,
        part_names@.len() == parts_len,
        part_data@.len() == parts_len,
        part_mimes@.len() == parts_len,
        part_filenames@.len() == parts_len,
    ensures
        r is None <==> client == 0 || decoded_text(url@) is None || !all_parts_decodable(
            part_data.deep_view(),
        ),
        r matches Some(req) ==> {
            &&& decoded_text(url@) == Some(req.url@)
            &&& headers_match(req.headers, header_keys@, header_values@)
            &&& req.op matches HttpOp::Upload { parts } && parts@.len() == parts_len
                && forall|i: int|
                0 <= i < parts_len ==> part_matches(
                    #[trigger] parts@[i],
                    part_names.deep_view()[i],
                    part_data.deep_view()[i],
                    part_mimes.deep_view()[i],
                    part_filenames.deep_view()[i],
                )
        },
{
    if client == 0 {
        return None;
    }
    let url_s = match cstr_to_rust(url) {
        Some(u) => u,
        None => { return None },
    };
    let headers = rust_map_from_c_arrays(header_keys, header_values, headers_len);
    let mut parts: Vec<UploadPart> = Vec::new();
    let mut i: usize = 0;
    while i < parts_len
        invariant
            part_names@.len() == parts_len,
            part_data@.len() == parts_len,
            part_mimes@.len() == parts_len,
            part_filenames@.len() == parts_len,
            i <= parts_len,
            parts@.len() == i,
            forall|j: int|
                0 <= j < i ==> part_matches(
                    #[trigger] parts@[j],
                    part_names.deep_view()[j],
                    part_data.deep_view()[j],
                    part_mimes.deep_view()[j],
                    part_filenames.deep_view()[j],
                ),
            forall|j: int| 0 <= j < i ==> decoded_bytes(#[trigger] part_data.deep_view()[j]) is Some,
        decreases parts_len - i,
    {
        let name = decode_field_or_empty(&part_names[i]);
        let data = match crate::cdata::cbytes_to_rust(&part_data[i]) {
            Some(d) => d,
            None => {
                proof {
                    assert(part_data.deep_view()[i as int] == part_data@[i as int]@);
                    assert(!all_parts_decodable(part_data.deep_view())) by {
                        assert(decoded_bytes(part_data.deep_view()[i as int]) is None);
                    }
                }
                return None;
            },
        };
        let mime = decode_opt_field(&part_mimes[i]);
        let filename = decode_opt_field(&part_filenames[i]);
        parts.push(UploadPart { name, data, mime, filename });
        i += 1;
    }
    Some(HttpRequest { url: url_s, headers, op: HttpOp::Upload { parts } })
}

/// Completion phase shared by the four request operations: a successful
/// outcome is moved behind a fresh opaque response handle; any failure —
/// network, protocol, or decode — collapses to the null handle with nothing
/// allocated and no diagnostic passed across the boundary.
pub fn ngenrs_http_finish(b: &mut NetBoundary, outcome: FetchOutcome) -> (h: usize)
    ensures
        outcome is Failure <==> h == 0,
        outcome is Failure ==> *final(b) == *old(b),
        outcome matches FetchOutcome::Success(resp) ==> {
            &&& !old(b).responses.live(h)
            &&& final(b).responses.live(h)
            &&& final(b).responses.value_of(h) == resp
            &&& forall|g: usize| g != h ==> final(b).responses.live(g) == old(b).responses.live(g)
            &&& forall|g: usize|
                g != h && old(b).responses.live(g) ==> final(b).responses.value_of(g) == old(
                    b,
                ).responses.value_of(g)
            &&& final(b).responses.live_count() == old(b).responses.live_count() + 1
            &&& final(b).clients == old(b).clients
        },
{
    match outcome {
        FetchOutcome::Success(resp) => box_into_raw_new(&mut b.responses, resp),
        FetchOutcome::Failure => 0,
    }
}

/// Reads a response's status: `-1` for the null handle, the numeric status
/// otherwise. Never mutates nor consumes the handle.
pub fn ngenrs_http_parse_rsp_status(b: &NetBoundary, rsp_ptr: usize) -> (r: i32)
    requires
        rsp_ptr == 0 || b.responses.live(rsp_ptr),
    ensures
        rsp_ptr == 0 ==> r == -1,
        rsp_ptr != 0 ==> r == b.responses.value_of(rsp_ptr).status as i32,
{
    if rsp_ptr == 0 {
        return -1;
    }
    let resp = b.responses.get(rsp_ptr);
    resp.status as i32
}

/// Reads a response's headers: the multimap collapsed to a mapping — a
/// later header of a name overwriting an earlier one — and encoded outward
/// as two freshly allocated parallel arrays plus their count, all owned by
/// the caller. The null handle yields nothing. Never mutates nor consumes
/// the handle.
pub fn ngenrs_http_parse_rsp_headers(b: &NetBoundary, rsp_ptr: usize) -> (r: Option<
    (Vec<CText>, Vec<CText>, usize),
>)
    requires
        rsp_ptr == 0 || b.responses.live(rsp_ptr),
    ensures
        rsp_ptr == 0 <==> r is None,
        r matches Some(out) ==> {
            let hm = collapsed_headers(b.responses.value_of(rsp_ptr));
            &&& out.2 == hm.dom().len()
            &&& out.0@.len() == out.2
            &&& out.1@.len() == out.2
            &&& mapping_of(out.0.deep_view(), out.1.deep_view()) == hm.restrict(
                representable_dom(hm),
            )
            &&& forall|j: int| 0 <= j < out.0@.len() ==> (#[trigger] out.0@[j]).wf()
            &&& forall|j: int| 0 <= j < out.1@.len() ==> (#[trigger] out.1@[j]).wf()
        },
{
    if rsp_ptr == 0 {
        return None;
    }
    let resp = b.responses.get(rsp_ptr);
    let collapsed = collapse_headers(&resp.headers);
    let (ck, cv, n) = rust_map_to_c_arrays(&collapsed);
    Some((ck, cv, n))
}

/// Reads a response's body as a marshaled string the caller owns: null for
/// the null handle, null for a bodiless response, and null again for a body
/// that cannot be represented. Never mutates nor consumes the handle.
pub fn ngenrs_http_parse_rsp_body(b: &NetBoundary, rsp_ptr: usize) -> (r: CText)
    requires
        rsp_ptr == 0 || b.responses.live(rsp_ptr),
    ensures
        rsp_ptr == 0 ==> r is Null,
        rsp_ptr != 0 ==> match b.responses.value_of(rsp_ptr).body {
            Some(s) => r@ == encoded_text(s@),
            None => r is Null,
        },
        r.wf(),
{
    if rsp_ptr == 0 {
        return CText::Null;
    }
    let resp = b.responses.get(rsp_ptr);
    match &resp.body {
        Some(s) => rust_to_cstr(s.clone()),
        None => CText::Null,
    }
}

/// Collapses an ordered header multimap into a mapping: a later value of a
/// name overwrites an earlier one.
fn collapse_headers(headers: &Vec<(String, String)>) -> (m: StringMap)
    ensures
        m.wf(),
        m@ == map_of_entries(headers.deep_view()),
{
    let mut m = StringMap::new();
    let mut i: usize = 0;
    let n = headers.len();
    while i < n
        invariant
            n == headers@.len(),
            i <= n,
            m.wf(),
            m@ == map_of_entries(headers.deep_view().subrange(0, i as int)),
        decreases n - i,
    {
        let e = &headers[i];
        let k = e.0.clone();
        let v = e.1.clone();
        proof {
            let hs = headers.deep_view();
            assert(hs.subrange(0, i as int + 1).drop_last() =~= hs.subrange(0, i as int));
            assert(hs.subrange(0, i as int + 1).last() == hs[i as int]);
            assert(hs[i as int] == (headers@[i as int].0@, headers@[i as int].1@));
        }
        m.insert(k, v);
        i += 1;
    }
    proof {
        assert(headers.deep_view().subrange(0, n as int) =~= headers.deep_view());
    }
    m
}

} // verus!
