use namesilo_dyndns::ip::Ipv4;
use namesilo_dyndns::namesilo::{
    parse_list_records, parse_update_reply, records_needing_update, NamesiloClient,
    RegistrarError, ResourceRecord,
};

fn record(id: &str, rtype: &str, value: &str, host: &str) -> ResourceRecord {
    ResourceRecord {
        record_id: id.to_string(),
        record_type: rtype.to_string(),
        value: value.to_string(),
        host: host.to_string(),
    }
}

#[test]
fn test_query_params() {
    let client = NamesiloClient::new("12345", "namesilo.com");

    let list_current_record = client.create_url("dnsListRecords", vec![]);
    assert_eq!(
        list_current_record,
        "https://www.namesilo.com/api/dnsListRecords?version=1&type=xml&key=12345&domain=namesilo.com"
    );

    let dns_update_record = client.create_url(
        "dnsUpdateRecord",
        vec![
            ("rrid", "1a2b3"),
            ("rrhost", "test"),
            ("rrvalue", "55.55.55.55"),
            ("rrttl", "7207"),
        ],
    );
    assert_eq!(
        dns_update_record,
        "https://www.namesilo.com/api/dnsUpdateRecord?version=1&type=xml&key=12345&domain=namesilo.com&rrid=1a2b3&rrhost=test&rrvalue=55.55.55.55&rrttl=7207".to_string()
    );

    let add_dns_record = client.create_url(
        "dnsAddRecord",
        vec![
            ("rrtype", "A"),
            ("rrhost", "test"),
            ("rrvalue", "55.55.55.55"),
            ("rrttl", "7207"),
        ],
    );
    assert_eq!(
        add_dns_record,
        "https://www.namesilo.com/api/dnsAddRecord?version=1&type=xml&key=12345&domain=namesilo.com&rrtype=A&rrhost=test&rrvalue=55.55.55.55&rrttl=7207"
    );
}

#[test]
fn update_url_for_one_record() {
    let client = NamesiloClient::new("12345", "namesilo.com");
    let url = client.create_url("dnsUpdateRecord", vec![("rrid", "1a2b3"), ("rrvalue", "55.55.55.55")]);
    assert_eq!(
        url,
        "https://www.namesilo.com/api/dnsUpdateRecord?version=1&type=xml&key=12345&domain=namesilo.com&rrid=1a2b3&rrvalue=55.55.55.55"
    );
}

#[test]
fn update_reply_success() {
    let xml = "<namesilo><reply><code>300</code><detail>success</detail></reply></namesilo>";
    assert_eq!(parse_update_reply(xml), Ok(()));
}

#[test]
fn update_reply_api_error_carries_code_and_detail() {
    let xml = "<namesilo><reply><code>280</code><detail>invalid key</detail></reply></namesilo>";
    assert_eq!(
        parse_update_reply(xml),
        Err(RegistrarError::ApiError { code: 280, detail: "invalid key".to_string() })
    );
}

#[test]
fn update_reply_decode_error() {
    assert_eq!(parse_update_reply("not a reply at all"), Err(RegistrarError::DecodeError));
    assert_eq!(
        parse_update_reply("<reply><code>30x</code></reply>"),
        Err(RegistrarError::DecodeError)
    );
    assert_eq!(parse_update_reply("<reply><code></code></reply>"), Err(RegistrarError::DecodeError));
}

#[test]
fn list_reply_decodes_records() {
    let xml = "<namesilo><request><operation>dnsListRecords</operation></request><reply>\
               <code>300</code><detail>success</detail>\
               <resource_record><record_id>1a2b3</record_id><type>A</type>\
               <host>example.com</host><value>1.2.3.4</value><ttl>7207</ttl></resource_record>\
               <resource_record><record_id>9z8y7</record_id><type>CNAME</type>\
               <host>www.example.com</host><value>example.com</value><ttl>3600</ttl></resource_record>\
               </reply></namesilo>";
    let records = parse_list_records(xml).unwrap();
    assert_eq!(records.len(), 2);
    assert_eq!(records[0], record("1a2b3", "A", "1.2.3.4", "example.com"));
    assert_eq!(records[1], record("9z8y7", "CNAME", "example.com", "www.example.com"));
}

#[test]
fn list_reply_without_records_is_empty() {
    let xml = "<namesilo><reply><code>300</code><detail>success</detail></reply></namesilo>";
    assert_eq!(parse_list_records(xml).unwrap(), vec![]);
}

#[test]
fn list_reply_api_error() {
    let xml = "<namesilo><reply><code>110</code><detail>invalid domain</detail></reply></namesilo>";
    assert_eq!(
        parse_list_records(xml),
        Err(RegistrarError::ApiError { code: 110, detail: "invalid domain".to_string() })
    );
}

#[test]
fn list_reply_fails_closed_on_malformed_record() {
    let unclosed = "<reply><code>300</code><resource_record><record_id>1</record_id>";
    assert_eq!(parse_list_records(unclosed), Err(RegistrarError::DecodeError));
    let missing_field = "<reply><code>300</code><resource_record><record_id>1</record_id>\
                         <type>A</type><value>1.2.3.4</value></resource_record></reply>";
    assert_eq!(parse_list_records(missing_field), Err(RegistrarError::DecodeError));
}

#[test]
fn reconciliation_targets_only_differing_a_records() {
    let records = vec![
        record("1", "A", "1.1.1.1", "h"),
        record("2", "A", "2.2.2.2", "h"),
        record("3", "CNAME", "x", "h"),
    ];
    let ids = records_needing_update(&records, &Ipv4::new(2, 2, 2, 2));
    assert_eq!(ids, vec!["1".to_string()]);
}

#[test]
fn reconciliation_is_idempotent() {
    let records = vec![
        record("1", "A", "2.2.2.2", "h"),
        record("2", "A", "2.2.2.2", "h"),
        record("3", "CNAME", "x", "h"),
    ];
    let ids = records_needing_update(&records, &Ipv4::new(2, 2, 2, 2));
    assert_eq!(ids.len(), 0);
}
