//! The registrar record store client: URL construction for the registrar's
//! query API, decoding of its XML-shaped reply envelope, and the
//! reconciliation plan that picks exactly the "A" records whose value
//! differs from the desired address.
use vstd::prelude::*;
use crate::ip::{ip_chars, Ipv4};
use crate::text::{all_digits, digits_val, first_occurrence_from, occurs_at, parse_decimal,
    find_sub};

verus! {

/// One DNS record as the registrar lists it; `record_id` is the
/// registrar-assigned stable key.
#[derive(Debug, PartialEq, Eq)]
pub struct ResourceRecord {
    pub record_id: String,
    pub record_type: String,
    pub value: String,
    pub host: String,
}

/// A failure of a registrar operation, as decided from its reply envelope:
/// the registrar answered with a code other than success, or the reply could
/// not be decoded.
#[derive(Debug, PartialEq, Eq)]
pub enum RegistrarError {
    ApiError { code: u32, detail: String },
    DecodeError,
}

/// The client for one registrar account and domain.
pub struct NamesiloClient {
    pub key: String,
    pub domain: String,
}

/// The query-string suffix for extra parameters: `&k=v` for each pair, in
/// the order supplied.
pub open spec fn query_chars(q: Seq<(&str, &str)>) -> Seq<char>
    decreases q.len(),
{
    if q.len() == 0 {
        Seq::empty()
    } else {
        query_chars(q.drop_last()) + seq!['&'] + q.last().0@ + seq!['='] + q.last().1@
    }
}

/// The exact request URL for an endpoint: base, endpoint, the fixed
/// version/format/key/domain parameters, then the extra parameters in order.
/// No URL-encoding is applied.
pub open spec fn url_chars(
    key: Seq<char>,
    domain: Seq<char>,
    endpoint: Seq<char>,
    q: Seq<(&str, &str)>,
) -> Seq<char> {
    "https://www.namesilo.com/api/"@ + endpoint + "?version=1&type=xml&key="@ + key + "&domain="@
        + domain + query_chars(q)
}

/// Character range of the content between the first `open` tag and the
/// first `close` tag after it, if both occur.
pub open spec fn spec_tag_range(
    s: Seq<char>,
    open: Seq<char>,
    close: Seq<char>,
    from: int,
) -> Option<(int, int)> {
    match first_occurrence_from(s, open, from) {
        None => None,
        Some(i) => match first_occurrence_from(s, close, i + open.len()) {
            None => None,
            Some(j) => Some((i + open.len() as int, j)),
        },
    }
}

/// The reply envelope's status code: the content of the first
/// `<code>` element, read as a decimal number of at most nine digits.
/// Absent when the element is missing or its content is not such a number.
pub open spec fn spec_code(s: Seq<char>) -> Option<nat> {
    match spec_tag_range(s, "<code>"@, "</code>"@, 0) {
        None => None,
        Some(r) => {
            let c = s.subrange(r.0, r.1);
            if 1 <= c.len() <= 9 && all_digits(c) {
                Some(digits_val(c, 0, c.len() as int))
            } else {
                None
            }
        },
    }
}

/// The reply envelope's human-readable detail: the content of the first
/// `<detail>` element, or empty when it is missing.
pub open spec fn spec_detail(s: Seq<char>) -> Seq<char> {
    match spec_tag_range(s, "<detail>"@, "</detail>"@, 0) {
        None => Seq::empty(),
        Some(r) => s.subrange(r.0, r.1),
    }
}

/// A found occurrence lies at or after the start of the search and inside
/// the text.
proof fn lemma_first_occurrence(s: Seq<char>, p: Seq<char>, i: int)
    requires
        0 <= i <= s.len(),
        first_occurrence_from(s, p, i) is Some,
    ensures
        i <= first_occurrence_from(s, p, i)->0,
        occurs_at(s, p, first_occurrence_from(s, p, i)->0),
    decreases s.len() - i,
{
    if i + p.len() > s.len() || p.len() == 0 {
    } else if occurs_at(s, p, i) {
    } else {
        lemma_first_occurrence(s, p, i + 1);
    }
}

/// The content between the first `open` tag and the first `close` tag after
/// it, with the position just past the close tag; absent when either tag is
/// missing.
fn tag_content<'a>(text: &'a str, n: usize, open: &str, close: &str, from: usize) -> (r: Option<
    (&'a str, usize),
>)
    requires
        n == text@.len(),
        from <= n,
    ensures
        match r {
            Some(p) => {
                let t = spec_tag_range(text@, open@, close@, from as int);
                &&& t is Some
                &&& {
                    let (a, b) = t->0;
                    p.0@ == text@.subrange(a, b) && p.1 == b + close@.len() && p.1 <= n
                }
            },
            None => spec_tag_range(text@, open@, close@, from as int) is None,
        },
{
    let m_open = open.unicode_len();
    let m_close = close.unicode_len();
    match find_sub(text, n, open, m_open, from) {
        None => None,
        Some(i) => {
            let a = i + m_open;
            match find_sub(text, n, close, m_close, a) {
                None => None,
                Some(j) => {
                    let content = text.substring_char(a, j);
                    Some((content, j + m_close))
                },
            }
        },
    }
}

/// Success code of the registrar's reply envelope.
pub const SUCCESS_CODE: u32 = 300;

/// Decides an update operation from the registrar's reply text: success
/// exactly when the reply's status code reads 300; an `ApiError` carrying
/// the code and the reply's detail for any other code; a `DecodeError` when
/// no status code can be read.
pub fn parse_update_reply(text: &str) -> (r: Result<(), RegistrarError>)
    ensures
        match r {
            Ok(()) => spec_code(text@) == Some(300nat),
            Err(e) => match e {
                RegistrarError::ApiError { code, detail } => spec_code(text@) == Some(code as nat)
                    && code != 300 && detail@ == spec_detail(text@),
                RegistrarError::DecodeError => spec_code(text@) is None,
            },
        },
{
    match reply_code(text) {
        None => Err(RegistrarError::DecodeError),
        Some(code) => {
            if code == SUCCESS_CODE {
                Ok(())
            } else {
                Err(RegistrarError::ApiError { code, detail: reply_detail(text) })
            }
        },
    }
}

/// Reads the reply envelope's status code.
fn reply_code(text: &str) -> (r: Option<u32>)
    ensures
        match r {
            Some(v) => spec_code(text@) == Some(v as nat),
            None => spec_code(text@) is None,
        },
{
    let n = text.unicode_len();
    match tag_content(text, n, "<code>", "</code>", 0) {
        None => None,
        Some((content, _after)) => parse_decimal(content),
    }
}

/// Reads the reply envelope's detail text, empty when it is missing.
fn reply_detail(text: &str) -> (r: String)
    ensures
        r@ == spec_detail(text@),
{
    let n = text.unicode_len();
    match tag_content(text, n, "<detail>", "</detail>", 0) {
        None => String::new(),
        Some((content, _after)) => content.to_owned(),
    }
}

/// The four fields of a listed record, as character sequences:
/// id, type, value, host.
pub type RecordFields = (Seq<char>, Seq<char>, Seq<char>, Seq<char>);

/// The field views of a record value.
pub open spec fn record_fields(r: ResourceRecord) -> RecordFields {
    (r.record_id@, r.record_type@, r.value@, r.host@)
}

/// The field views of a sequence of record values.
pub open spec fn fields_of(rs: Seq<ResourceRecord>) -> Seq<RecordFields> {
    rs.map_values(|r: ResourceRecord| record_fields(r))
}

/// The fields of one record element's body: the contents of its first
/// `record_id`, `type`, `value` and `host` elements; absent when any of the
/// four is missing.
pub open spec fn spec_record_fields(s: Seq<char>) -> Option<RecordFields> {
    let id = spec_tag_range(s, "<record_id>"@, "</record_id>"@, 0);
    let ty = spec_tag_range(s, "<type>"@, "</type>"@, 0);
    let va = spec_tag_range(s, "<value>"@, "</value>"@, 0);
    let ho = spec_tag_range(s, "<host>"@, "</host>"@, 0);
    if id is Some && ty is Some && va is Some && ho is Some {
        let (ida, idb) = id->0;
        let (tya, tyb) = ty->0;
        let (vaa, vab) = va->0;
        let (hoa, hob) = ho->0;
        Some(
            (
                s.subrange(ida, idb),
                s.subrange(tya, tyb),
                s.subrange(vaa, vab),
                s.subrange(hoa, hob),
            ),
        )
    } else {
        None
    }
}

/// The records listed in the reply from position `i` on: one per
/// `resource_record` element, in order. Absent when an element is left
/// unclosed or lacks one of the four fields — a malformed reply fails
/// closed.
pub open spec fn spec_records_from(s: Seq<char>, i: int) -> Option<Seq<RecordFields>>
    decreases s.len() - i,
    when 0 <= i <= s.len()
    via spec_records_from_dec
{
    match first_occurrence_from(s, "<resource_record>"@, i) {
        None => Some(Seq::empty()),
        Some(j) => {
            let a = j + "<resource_record>"@.len();
            match first_occurrence_from(s, "</resource_record>"@, a as int) {
                None => None,
                Some(b) => match spec_record_fields(s.subrange(a as int, b)) {
                    None => None,
                    Some(f) => match spec_records_from(
                        s,
                        b + "</resource_record>"@.len(),
                    ) {
                        None => None,
                        Some(rest) => Some(seq![f] + rest),
                    },
                },
            }
        },
    }
}

#[via_fn]
proof fn spec_records_from_dec(s: Seq<char>, i: int) {
    match first_occurrence_from(s, "<resource_record>"@, i) {
        None => {},
        Some(j) => {
            lemma_first_occurrence(s, "<resource_record>"@, i);
            let a = j + "<resource_record>"@.len();
            match first_occurrence_from(s, "</resource_record>"@, a as int) {
                None => {},
                Some(b) => {
                    lemma_first_occurrence(s, "</resource_record>"@, a as int);
                    reveal_strlit("<resource_record>");
                    reveal_strlit("</resource_record>");
                },
            }
        },
    }
}

/// Extracts one listed record from a `resource_record` element's body.
fn extract_record(body: &str) -> (r: Option<ResourceRecord>)
    ensures
        match r {
            Some(rec) => spec_record_fields(body@) == Some(record_fields(rec)),
            None => spec_record_fields(body@) is None,
        },
{
    let n = body.unicode_len();
    let id = tag_content(body, n, "<record_id>", "</record_id>", 0);
    let ty = tag_content(body, n, "<type>", "</type>", 0);
    let va = tag_content(body, n, "<value>", "</value>", 0);
    let ho = tag_content(body, n, "<host>", "</host>", 0);
    match (id, ty, va, ho) {
        (Some(id), Some(ty), Some(va), Some(ho)) => Some(
            ResourceRecord {
                record_id: id.0.to_owned(),
                record_type: ty.0.to_owned(),
                value: va.0.to_owned(),
                host: ho.0.to_owned(),
            },
        ),
        _ => None,
    }
}

/// Decides a list operation from the registrar's reply text: the listed
/// records exactly when the status code reads 300 and every record element
/// decodes; an `ApiError` carrying code and detail for any other code; a
/// `DecodeError` when no status code can be read or a record element is
/// malformed.
pub fn parse_list_records(text: &str) -> (r: Result<Vec<ResourceRecord>, RegistrarError>)
    ensures
        match r {
            Ok(records) => spec_code(text@) == Some(300nat) && spec_records_from(text@, 0)
                == Some(fields_of(records@)),
            Err(e) => match e {
                RegistrarError::ApiError { code, detail } => spec_code(text@) == Some(code as nat)
                    && code != 300 && detail@ == spec_detail(text@),
                RegistrarError::DecodeError => spec_code(text@) is None || (spec_code(text@)
                    == Some(300nat) && spec_records_from(text@, 0) is None),
            },
        },
{
    match reply_code(text) {
        None => {
            return Err(RegistrarError::DecodeError);
        },
        Some(code) => {
            if code != SUCCESS_CODE {
                return Err(RegistrarError::ApiError { code, detail: reply_detail(text) });
            }
        },
    }
    let n = text.unicode_len();
    let open = "<resource_record>";
    let close = "</resource_record>";
    let m_open = open.unicode_len();
    let m_close = close.unicode_len();
    let mut records: Vec<ResourceRecord> = Vec::new();
    let mut pos: usize = 0;
    loop
        invariant
            pos <= n,
            n == text@.len(),
            m_open == open@.len(),
            m_close == close@.len(),
            open@ == "<resource_record>"@,
            close@ == "</resource_record>"@,
            spec_code(text@) == Some(300nat),
            match spec_records_from(text@, pos as int) {
                Some(rest) => spec_records_from(text@, 0) == Some(fields_of(records@) + rest),
                None => spec_records_from(text@, 0) is None,
            },
        decreases n - pos,
    {
        match find_sub(text, n, open, m_open, pos) {
            None => {
                proof {
                    assert(fields_of(records@) + Seq::<RecordFields>::empty() =~= fields_of(
                        records@,
                    ));
                }
                return Ok(records);
            },
            Some(j) => {
                let a = j + m_open;
                match find_sub(text, n, close, m_close, a) {
                    None => {
                        return Err(RegistrarError::DecodeError);
                    },
                    Some(b) => {
                        let body = text.substring_char(a, b);
                        match extract_record(body) {
                            None => {
                                return Err(RegistrarError::DecodeError);
                            },
                            Some(rec) => {
                                proof {
                                    let ghost f = record_fields(rec);
                                    match spec_records_from(text@, b + m_close) {
                                        Some(rest) => {
                                            assert(fields_of(records@.push(rec)) + rest
                                                =~= fields_of(records@) + (seq![f] + rest));
                                        },
                                        None => {},
                                    }
                                }
                                records.push(rec);
                                pos = b + m_close;
                            },
                        }
                    },
                }
            },
        }
    }
}

/// The record must be updated: it is an "A" record and its value is not the
/// desired address's dotted notation.
pub open spec fn needs_update(r: ResourceRecord, ip: Ipv4) -> bool {
    r.record_type@ == "A"@ && r.value@ != ip_chars(ip)
}

/// The ids of the records an update must target, in listing order: exactly
/// the "A" records whose value differs from the desired address.
pub open spec fn plan_ids(records: Seq<ResourceRecord>, ip: Ipv4) -> Seq<Seq<char>>
    decreases records.len(),
{
    if records.len() == 0 {
        Seq::empty()
    } else {
        plan_ids(records.drop_last(), ip) + if needs_update(records.last(), ip) {
            seq![records.last().record_id@]
        } else {
            Seq::empty()
        }
    }
}

/// The reconciliation plan: the ids of exactly those listed records that
/// are "A" records and do not already hold the desired address, in listing
/// order. Records already holding the address, and records of any other
/// type, are untouched.
pub fn records_needing_update(records: &Vec<ResourceRecord>, ip: &Ipv4) -> (ids: Vec<String>)
    ensures
        ids@.len() == plan_ids(records@, *ip).len(),
        forall|k: int| 0 <= k < ids@.len() ==> ids@[k]@ == plan_ids(records@, *ip)[k],
{
    let a_type: String = String::from_str("A");
    let ip_str: String = ip.to_dotted();
    let mut ids: Vec<String> = Vec::new();
    let mut i: usize = 0;
    while i < records.len()
        invariant
            i <= records.len(),
            a_type@ == "A"@,
            ip_str@ == ip_chars(*ip),
            ids@.len() == plan_ids(records@.subrange(0, i as int), *ip).len(),
            forall|k: int| 0 <= k < ids@.len() ==> ids@[k]@ == plan_ids(
                records@.subrange(0, i as int),
                *ip,
            )[k],
        decreases records.len() - i,
    {
        proof {
            assert(records@.subrange(0, i + 1).drop_last() =~= records@.subrange(0, i as int));
            assert(records@.subrange(0, i + 1).last() == records@[i as int]);
        }
        if records[i].record_type == a_type && !(records[i].value == ip_str) {
            ids.push(records[i].record_id.clone());
        }
        i = i + 1;
    }
    proof {
        assert(records@.subrange(0, records@.len() as int) =~= records@);
    }
    ids
}

/// Reconciliation is idempotent: when every "A" record already holds the
/// desired address, the plan targets no record, so a pass issues zero
/// updates and succeeds.
pub proof fn lemma_reconcile_idempotent(records: Seq<ResourceRecord>, ip: Ipv4)
    requires
        forall|k: int| 0 <= k < records.len() ==> (records[k].record_type@ == "A"@
            ==> records[k].value@ == ip_chars(ip)),
    ensures
        plan_ids(records, ip).len() == 0,
    decreases records.len(),
{
    if records.len() > 0 {
        assert(forall|k: int| 0 <= k < records.drop_last().len()
            ==> records.drop_last()[k] == records[k]);
        lemma_reconcile_idempotent(records.drop_last(), ip);
    }
}

impl NamesiloClient {
    /// A client holding the API key and the managed domain.
    pub fn new(key: &str, domain: &str) -> (r: Self)
        ensures
            r.key@ == key@,
            r.domain@ == domain@,
    {
        Self { key: key.to_owned(), domain: domain.to_owned() }
    }

    /// Builds the registrar request URL for `endpoint` with the extra query
    /// parameters appended in the order supplied.
    pub fn create_url(&self, endpoint: &str, query: Vec<(&str, &str)>) -> (r: String)
        ensures
            r@ == url_chars(self.key@, self.domain@, endpoint@, query@),
    {
        let mut url = String::new();
        url.append("https://www.namesilo.com/api/");
        url.append(endpoint);
        url.append("?version=1&type=xml&key=");
        url.append(self.key.as_str());
        url.append("&domain=");
        url.append(self.domain.as_str());
        let ghost prefix = url@;
        let mut i: usize = 0;
        while i < query.len()
            invariant
                i <= query.len(),
                url@ == prefix + query_chars(query@.subrange(0, i as int)),
                prefix == url_chars(self.key@, self.domain@, endpoint@, Seq::<(&str, &str)>::empty()),
            decreases query.len() - i,
        {
            proof {
                reveal_strlit("&");
                reveal_strlit("=");
            }
            let (k, v) = query[i];
            url.append("&");
            url.append(k);
            url.append("=");
            url.append(v);
            proof {
                assert(query@.subrange(0, i + 1).drop_last() =~= query@.subrange(0, i as int));
                assert(query@.subrange(0, i + 1).last() == query@[i as int]);
                assert(url@ =~= prefix + query_chars(query@.subrange(0, i + 1)));
            }
            i = i + 1;
        }
        proof {
            assert(query@.subrange(0, query@.len() as int) =~= query@);
            assert(url@ =~= url_chars(self.key@, self.domain@, endpoint@, query@));
        }
        url
    }
}

} // verus!
