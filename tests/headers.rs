use rcurl::headers::HeaderKey;
use rcurl::Headers;

// An iterator written by hand, counting from `current` up to `max`.
struct MyIterator {
    current: usize,
    max: usize,
}

impl Iterator for MyIterator {
    type Item = usize;

    fn next(&mut self) -> Option<Self::Item> {
        if self.current < self.max {
            let value = self.current;
            self.current += 1;
            Some(value)
        } else {
            None
        }
    }
}

#[test]
fn test_my_iterator() {
    let iter = MyIterator { current: 0, max: 5 };
    for value in iter {
        println!("Value: {}", value);
    }
}

#[test]
fn serialized_headers_hold_the_added_line() {
    let mut headers = Headers::new();
    headers.add("Content-Type".to_string(), "application/json".to_string());
    let text = headers.to_string();
    assert!(text.contains("Content-Type: application/json\r\n"));
    assert_eq!(text, "Content-Type: application/json\r\n");
}

#[test]
fn add_keeps_the_first_value() {
    let mut headers = Headers::new();
    headers.add("A".to_string(), "1".to_string());
    headers.add("A".to_string(), "2".to_string());
    assert_eq!(headers.get("A"), Some(&"1".to_string()));
    assert_eq!(headers.keys(), vec!["A".to_string()]);
}

#[test]
fn set_overwrites_in_place() {
    let mut headers = Headers::new();
    headers.set("A".to_string(), "1".to_string());
    headers.set("B".to_string(), "2".to_string());
    headers.set("A".to_string(), "3".to_string());
    assert_eq!(headers.keys(), vec!["A".to_string(), "B".to_string()]);
    assert_eq!(headers.values(), vec!["3".to_string(), "2".to_string()]);
    assert_eq!(headers.to_string(), "A: 3\r\nB: 2\r\n");
}

#[test]
fn names_are_case_sensitive() {
    let mut headers = Headers::new();
    headers.set("Host".to_string(), "a".to_string());
    headers.set("host".to_string(), "b".to_string());
    assert_eq!(headers.get("Host"), Some(&"a".to_string()));
    assert_eq!(headers.get("host"), Some(&"b".to_string()));
    assert_eq!(headers.get("HOST"), None);
}

#[test]
fn remove_drops_one_entry() {
    let mut headers = Headers::new();
    headers.set("A".to_string(), "1".to_string());
    headers.set("B".to_string(), "2".to_string());
    headers.set("C".to_string(), "3".to_string());
    headers.remove("B");
    headers.remove("missing");
    assert_eq!(headers.keys(), vec!["A".to_string(), "C".to_string()]);
    assert_eq!(headers.get("B"), None);
    assert_eq!(headers.to_string(), "A: 1\r\nC: 3\r\n");
}

#[test]
fn default_headers_are_seeded() {
    let headers = Headers::default();
    assert_eq!(
        headers.keys(),
        vec![
            "User-Agent".to_string(),
            "Accept".to_string(),
            "Connection".to_string(),
            "Accept-Language".to_string(),
            "Accept-Charset".to_string(),
        ]
    );
    assert_eq!(headers.get("Connection"), Some(&"close".to_string()));
    assert_eq!(headers.get("User-Agent"), Some(&"rcurl/1.0".to_string()));
    assert_eq!(headers.get("Accept"), Some(&"*/*".to_string()));
    assert_eq!(headers.get("Accept-Charset"), Some(&"charset=utf8".to_string()));
}

#[test]
fn empty_map_serializes_to_nothing() {
    assert_eq!(Headers::new().to_string(), "");
}

#[test]
fn header_key_names() {
    assert_eq!(HeaderKey::Accept.as_str(), "Accept");
    assert_eq!(HeaderKey::ContentType.as_str(), "Content-Type");
    assert_eq!(HeaderKey::UserAgent.as_str(), "User-Agent");
    assert_eq!(HeaderKey::Authorization.as_str(), "Authorization");
    assert_eq!(HeaderKey::Host.as_str(), "Host");
    assert_eq!(HeaderKey::AcceptCharset.as_str(), "Accept-Charset");
}

#[test]
fn header_key_from_name() {
    assert_eq!(HeaderKey::try_from("Content-Type"), Ok(HeaderKey::ContentType));
    assert_eq!(HeaderKey::try_from("Host"), Ok(HeaderKey::Host));
    assert_eq!(
        HeaderKey::try_from("X-Custom"),
        Err("unknown header key: X-Custom".to_string())
    );
    assert!(HeaderKey::try_from("Accept-Charset").is_err());
}

#[test]
fn removed_name_is_gone_and_names_stay_distinct() {
    let mut headers = Headers::default();
    headers.add("Accept".to_string(), "text/html".to_string());
    headers.set("Accept".to_string(), "text/plain".to_string());
    let keys = headers.keys();
    for i in 0..keys.len() {
        for j in i + 1..keys.len() {
            assert_ne!(keys[i], keys[j]);
        }
    }
    headers.remove("Accept");
    assert_eq!(headers.get("Accept"), None);
    assert_eq!(headers.keys().len(), 4);
    let copy = headers.clone();
    assert_eq!(copy.to_string(), headers.to_string());
}
