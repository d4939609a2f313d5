use lora_telemetry::encoding::{decode_form_url_encoded, hex_digit_to_value, url_decode};
use lora_telemetry::http::{HttpMethod, HttpResponse};

#[test]
fn test_decode_form_url_encoded() {
    let encoded: Vec<u8> = br#"csrf_token=%7B%7B+csrf_token+%7D%7D&wifi_sta_ssid=external+ssid&wifi_sta_password=1234&wifi_ap_ssid=apSEE+D&dns_server_1=1.1.1.1&dns_server_2=1.0.0.1&action=apply"#.to_vec();
    let mut it = decode_form_url_encoded(&encoded);

    assert_eq!(
        it.next(),
        Some((b"csrf_token".to_vec(), b"{{ csrf_token }}".to_vec()))
    );
    assert_eq!(
        it.next(),
        Some((b"wifi_sta_ssid".to_vec(), b"external ssid".to_vec()))
    );
    assert_eq!(
        it.next(),
        Some((b"wifi_sta_password".to_vec(), b"1234".to_vec()))
    );
    assert_eq!(
        it.next(),
        Some((b"wifi_ap_ssid".to_vec(), b"apSEE D".to_vec()))
    );
    assert_eq!(
        it.next(),
        Some((b"dns_server_1".to_vec(), b"1.1.1.1".to_vec()))
    );
    assert_eq!(
        it.next(),
        Some((b"dns_server_2".to_vec(), b"1.0.0.1".to_vec()))
    );
    assert_eq!(it.next(), Some((b"action".to_vec(), b"apply".to_vec())));
    assert_eq!(it.next(), None);
}

#[test]
fn test_url_decode_identity() {
    let mut encoded: Vec<u8> = br#""#.to_vec();
    assert_eq!(url_decode(&mut encoded), b"".as_ref());

    let mut encoded: Vec<u8> = b"should-not-change".to_vec();
    assert_eq!(url_decode(&mut encoded), b"should-not-change".as_ref());

    let mut encoded: Vec<u8> = b"%4nope%invalid".to_vec();
    assert_eq!(url_decode(&mut encoded), b"%4nope%invalid".as_ref());
}

#[test]
fn test_url_decode_spaces() {
    let mut encoded: Vec<u8> = b"++".to_vec();
    assert_eq!(url_decode(&mut encoded), b"  ".as_ref());

    let mut encoded: Vec<u8> = b"[%20%20]".to_vec();
    assert_eq!(url_decode(&mut encoded), b"[  ]".as_ref());

    let mut encoded: Vec<u8> = b"%20s++".to_vec();
    assert_eq!(url_decode(&mut encoded), b" s  ".as_ref());

    let mut encoded: Vec<u8> = b"+++spa%20ce+++".to_vec();
    assert_eq!(url_decode(&mut encoded), b"   spa ce   ".as_ref());

    let mut encoded: Vec<u8> = b"++These+are%20spaces++".to_vec();
    assert_eq!(url_decode(&mut encoded), b"  These are spaces  ".as_ref());
}

#[test]
fn test_url_decode_hex() {
    let mut encoded: Vec<u8> = br#"%7B%7b param %7d%7D"#.to_vec();
    assert_eq!(url_decode(&mut encoded), b"{{ param }}".as_ref());
}

#[test]
fn test_url_decode_mixed() {
    let mut encoded: Vec<u8> = br#"csrf_token=%7B%7B+csrf_token+%7D%7D&wifi_sta_ssid=external+ssid&wifi_sta_password=1234&wifi_ap_ssid=apSEE+D&dns_server_1=1.1.1.1&dns_server_2=1.0.0.1&action=apply"#.to_vec();
    assert_eq!(url_decode(&mut encoded), b"csrf_token={{ csrf_token }}&wifi_sta_ssid=external ssid&wifi_sta_password=1234&wifi_ap_ssid=apSEE D&dns_server_1=1.1.1.1&dns_server_2=1.0.0.1&action=apply".as_ref());
}

#[test]
fn url_decode_percent_at_end() {
    assert_eq!(url_decode(b"100%"), b"100%".as_ref());
    assert_eq!(url_decode(b"%4"), b"%4".as_ref());
    assert_eq!(url_decode(b"%41"), b"A".as_ref());
}

#[test]
fn hex_digits() {
    assert_eq!(hex_digit_to_value(b'0'), Some(0));
    assert_eq!(hex_digit_to_value(b'9'), Some(9));
    assert_eq!(hex_digit_to_value(b'a'), Some(10));
    assert_eq!(hex_digit_to_value(b'F'), Some(15));
    assert_eq!(hex_digit_to_value(b'g'), None);
}

#[test]
fn form_pair_without_value_separator_ends() {
    let mut it = decode_form_url_encoded(b"a=1&flag&b=x+y");
    assert_eq!(it.next(), Some((b"a".to_vec(), b"1".to_vec())));
    assert_eq!(it.next(), Some((b"flag&b".to_vec(), b"x y".to_vec())));
    assert_eq!(it.next(), None);
    let mut it = decode_form_url_encoded(b"novalue");
    assert_eq!(it.next(), None);
    assert_eq!(it.next(), None);
}

#[test]
fn http_methods() {
    assert_eq!(HttpMethod::Get.name(), b"GET".to_vec());
    assert_eq!(HttpMethod::Post.name(), b"POST".to_vec());
    assert_eq!(HttpMethod::from_name(b"GET"), Some(HttpMethod::Get));
    assert_eq!(HttpMethod::from_name(b"POST"), Some(HttpMethod::Post));
    assert_eq!(HttpMethod::from_name(b"PUT"), None);
}

#[test]
fn http_status_lines() {
    assert_eq!(
        HttpResponse::from_status_line(b"HTTP/1.1 204 No Content").map(|r| r.status()),
        Some(204)
    );
    assert_eq!(
        HttpResponse::from_status_line(b"HTTP/1.0 200 OK").map(|r| r.status()),
        Some(200)
    );
    assert!(HttpResponse::from_status_line(b"HTTP/2.0 200 OK").is_none());
    assert!(HttpResponse::from_status_line(b"HTTP/1.1 200").is_none());
    assert!(HttpResponse::from_status_line(b"HTTP/1.1 99999 Big").is_none());
    assert!(HttpResponse::from_status_line(b"HTTP/1.1 2x0 Bad").is_none());
    assert!(HttpResponse::from_status_line(b"HTTP/1.1 200 \xff").is_none());
}
