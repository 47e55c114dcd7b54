use crane_webserver::response::{Response, ResponseBuilder};

fn wire(r: &Response) -> String {
    r.to_string()
}

#[test]
fn default_builder_serializes_status_200_no_headers_empty_body() {
    let r = ResponseBuilder::new().build();
    assert_eq!(wire(&r), "HTTP/1.1 200 OK\r\n\r\n\r\n");
}

#[test]
fn hello_world_with_one_header() {
    let r = ResponseBuilder::new()
        .status(200)
        .header("Content-Type", "text/plain")
        .body("Hello, World!")
        .build();
    assert_eq!(
        wire(&r),
        "HTTP/1.1 200 OK\r\nContent-Type: text/plain\r\n\r\nHello, World!"
    );
}

#[test]
fn not_found_without_headers_or_body() {
    let r = ResponseBuilder::new().status(404).build();
    assert_eq!(wire(&r), "HTTP/1.1 404 OK\r\n\r\n\r\n");
}

#[test]
fn unchecked_status_is_emitted_literally() {
    let r = ResponseBuilder::new().status(9999).build();
    let s = wire(&r);
    assert!(s.starts_with("HTTP/1.1 9999 OK\r\n"));
    assert_eq!(s, "HTTP/1.1 9999 OK\r\n\r\n\r\n");
}

#[test]
fn status_zero_and_largest_value() {
    assert_eq!(
        wire(&ResponseBuilder::new().status(0).build()),
        "HTTP/1.1 0 OK\r\n\r\n\r\n"
    );
    assert_eq!(
        wire(&ResponseBuilder::new().status(65535).build()),
        "HTTP/1.1 65535 OK\r\n\r\n\r\n"
    );
}

#[test]
fn status_digits_have_no_padding() {
    for (code, text) in [(7u16, "7"), (10, "10"), (100, "100"), (301, "301"), (500, "500")] {
        let s = wire(&ResponseBuilder::new().status(code).build());
        assert_eq!(s, format!("HTTP/1.1 {} OK\r\n\r\n\r\n", text));
    }
}

#[test]
fn reason_phrase_is_always_ok() {
    let s = wire(&ResponseBuilder::new().status(500).body("boom").build());
    assert_eq!(s, "HTTP/1.1 500 OK\r\n\r\n\r\nboom");
}

#[test]
fn status_line_first_and_body_last() {
    for code in [100u16, 200, 418, 599] {
        for body in ["", "x", "line\r\nbreak", "trailing\n"] {
            let s = wire(&ResponseBuilder::new().status(code).body(body).build());
            assert!(s.starts_with(&format!("HTTP/1.1 {} OK", code)));
            assert!(s.ends_with(body));
            assert_eq!(s, format!("HTTP/1.1 {} OK\r\n\r\n\r\n{}", code, body));
        }
    }
}

#[test]
fn headers_kept_in_order_with_duplicates() {
    let r = ResponseBuilder::new()
        .header("Set-Cookie", "a=1")
        .header("X-Trace", "t")
        .header("Set-Cookie", "b=2")
        .build();
    let s = wire(&r);
    assert_eq!(
        s,
        "HTTP/1.1 200 OK\r\nSet-Cookie: a=1\r\nX-Trace: t\r\nSet-Cookie: b=2\r\n\r\n"
    );
    let first = s.find("Set-Cookie: a=1\r\n").unwrap();
    let second = s.find("X-Trace: t\r\n").unwrap();
    let third = s.find("Set-Cookie: b=2\r\n").unwrap();
    assert!(first < second && second < third);
}

#[test]
fn header_names_and_values_are_not_validated() {
    let r = ResponseBuilder::new().header("", "").header(" K ", " v ").build();
    assert_eq!(wire(&r), "HTTP/1.1 200 OK\r\n: \r\n K :  v \r\n\r\n");
}

#[test]
fn serializing_twice_gives_identical_text() {
    let r = ResponseBuilder::new()
        .status(201)
        .header("Location", "/items/1")
        .body("created")
        .build();
    let a = wire(&r);
    let b = wire(&r);
    assert_eq!(a, b);
    assert_eq!(a, "HTTP/1.1 201 OK\r\nLocation: /items/1\r\n\r\ncreated");
}

#[test]
fn last_body_wins() {
    let r = ResponseBuilder::new().body("a").body("b").build();
    assert_eq!(wire(&r), "HTTP/1.1 200 OK\r\n\r\n\r\nb");
}

#[test]
fn last_status_wins_and_order_of_calls_is_free() {
    let r = ResponseBuilder::new()
        .body("hi")
        .status(301)
        .header("Location", "/")
        .status(302)
        .build();
    assert_eq!(wire(&r), "HTTP/1.1 302 OK\r\nLocation: /\r\n\r\nhi");
}

#[test]
fn no_content_length_is_added() {
    let s = wire(&ResponseBuilder::new().body("abc").build());
    assert!(!s.contains("Content-Length"));
    let s = wire(
        &ResponseBuilder::new()
            .header("Content-Length", "3")
            .body("abc")
            .build(),
    );
    assert_eq!(s, "HTTP/1.1 200 OK\r\nContent-Length: 3\r\n\r\nabc");
}

#[test]
fn non_ascii_body_is_kept_verbatim() {
    let s = wire(&ResponseBuilder::new().body("héllo ✓").build());
    assert!(s.ends_with("\r\n\r\n\r\nhéllo ✓"));
}
