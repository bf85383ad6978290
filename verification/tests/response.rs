use curl_wrapper::CurlResponse;

fn parse(raw: &str) -> CurlResponse {
    CurlResponse::new(raw.as_bytes().to_vec())
}

fn strings(items: &[&str]) -> Vec<String> {
    items.iter().map(|item| item.to_string()).collect()
}

#[test]
fn parses_a_single_message() {
    let response = parse("HTTP/1.1 200 OK\r\nContent-Type: text/html\r\n\r\n<html>Hi</html>");
    assert_eq!(response.status_code, 200);
    assert_eq!(response.headers, strings(&["Content-Type: text/html"]));
    assert_eq!(response.body, "<html>Hi</html>");
}

#[test]
fn keeps_the_headers_in_order() {
    let response = parse(
        "HTTP/1.1 404 Not Found\r\nServer: nginx\r\nContent-Length: 9\r\nX-A: 1\r\n\r\nnot found",
    );
    assert_eq!(response.status_code, 404);
    assert_eq!(response.headers, strings(&["Server: nginx", "Content-Length: 9", "X-A: 1"]));
    assert_eq!(response.body, "not found");
}

#[test]
fn message_without_headers() {
    let response = parse("HTTP/1.1 500 Internal Server Error\r\n\r\noops");
    assert_eq!(response.status_code, 500);
    assert!(response.headers.is_empty());
    assert_eq!(response.body, "oops");
}

#[test]
fn empty_capture_gives_status_zero() {
    let response = CurlResponse::new(Vec::new());
    assert_eq!(response.status_code, 0);
    assert!(response.headers.is_empty());
    assert_eq!(response.body, "");
}

#[test]
fn text_without_a_status_line_gives_status_zero() {
    for raw in [
        "just some text",
        "HTTP/ without a code",
        "HTTP/1.1 OK\r\nServer: x\r\n\r\nbody",
        "200 OK\r\nServer: x\r\n\r\nbody",
        "http/1.1 200 OK\r\n\r\nbody",
        "HTTP/1.1 20 OK\r\n\r\nbody",
        "HTTP/1.1200 OK\r\n\r\nbody",
    ] {
        let response = parse(raw);
        assert_eq!(response.status_code, 0, "{raw:?}");
        assert!(response.headers.is_empty(), "{raw:?}");
    }
}

#[test]
fn text_without_a_status_line_still_has_a_body() {
    let response = parse("  just some text \n");
    assert_eq!(response.status_code, 0);
    assert_eq!(response.body, "just some text");
    let response = parse("first\r\n\r\n second ");
    assert_eq!(response.status_code, 0);
    assert!(response.headers.is_empty());
    assert_eq!(response.body, "second");
}

#[test]
fn skips_the_message_of_a_redirect() {
    let response = parse(
        "HTTP/1.1 302 Found\r\nLocation: /next\r\n\r\nHTTP/1.1 200 OK\r\nContent-Type: text/plain\r\n\r\nhello",
    );
    assert_eq!(response.status_code, 200);
    assert_eq!(response.headers, strings(&["Content-Type: text/plain"]));
    assert_eq!(response.body, "hello");
}

#[test]
fn skips_several_redirects() {
    let response = parse(
        "HTTP/1.1 301 Moved\r\nLocation: /a\r\n\r\nHTTP/1.1 307 Temporary\r\nLocation: /b\r\n\r\nHTTP/2 418 \r\nX: y\r\n\r\ntea",
    );
    assert_eq!(response.status_code, 418);
    assert_eq!(response.headers, strings(&["X: y"]));
    assert_eq!(response.body, "tea");
}

#[test]
fn body_is_the_last_block_not_the_one_after_the_status() {
    let response = parse("HTTP/1.1 200 OK\r\nA: b\r\n\r\nfirst part\r\n\r\nsecond part");
    assert_eq!(response.status_code, 200);
    assert_eq!(response.headers, strings(&["A: b"]));
    assert_eq!(response.body, "second part");
}

#[test]
fn redirect_body_is_not_the_body() {
    let response = parse(
        "HTTP/1.1 302 Found\r\nLocation: /x\r\n\r\nmoved\r\n\r\nHTTP/1.1 404 Not Found\r\nA: b\r\n\r\n  gone  ",
    );
    assert_eq!(response.status_code, 404);
    assert_eq!(response.headers, strings(&["A: b"]));
    assert_eq!(response.body, "gone");
}

#[test]
fn only_redirects_give_status_zero_and_the_last_block() {
    let response = parse("HTTP/1.1 301 Moved Permanently\r\nLocation: /a\r\n\r\n moved \r\n");
    assert_eq!(response.status_code, 0);
    assert!(response.headers.is_empty());
    assert_eq!(response.body, "moved");
}

#[test]
fn any_code_that_begins_with_three_is_skipped() {
    for code in ["300", "304", "399"] {
        let response = parse(&format!("HTTP/1.1 {code} X\r\nA: b\r\n\r\nbody"));
        assert_eq!(response.status_code, 0, "{code}");
        assert!(response.headers.is_empty(), "{code}");
        assert_eq!(response.body, "body", "{code}");
    }
}

#[test]
fn parsing_twice_gives_the_same_response() {
    let raw = b"HTTP/1.1 302 Found\r\n\r\nHTTP/1.1 201 Created\r\n  A: b \r\n\r\n body \xff".to_vec();
    let first = CurlResponse::new(raw.clone());
    let second = CurlResponse::new(raw);
    assert_eq!(first, second);
    assert_eq!(first.status_code, 201);
    assert_eq!(first.headers, strings(&["A: b"]));
    assert_eq!(first.body, "body \u{FFFD}");
}

#[test]
fn header_lines_are_trimmed() {
    let response = parse("HTTP/1.1 200 OK\r\n  Content-Type: text/html  \r\n\tX-Tab: 1\t\r\n\r\n");
    assert_eq!(response.headers, strings(&["Content-Type: text/html", "X-Tab: 1"]));
}

#[test]
fn body_is_trimmed() {
    let response = parse("HTTP/1.1 200 OK\r\n\r\n \r\n\t<p>x</p>\u{a0}\n ");
    assert_eq!(response.body, "<p>x</p>");
}

#[test]
fn message_without_body_has_an_empty_body() {
    let response = parse("HTTP/1.1 204 No Content\r\nServer: x\r\n\r\n");
    assert_eq!(response.status_code, 204);
    assert_eq!(response.headers, strings(&["Server: x"]));
    assert_eq!(response.body, "");
}

#[test]
fn message_without_separator_is_status_and_body_at_once() {
    let response = parse("HTTP/1.1 200 OK\r\nServer: x");
    assert_eq!(response.status_code, 200);
    assert_eq!(response.headers, strings(&["Server: x"]));
    assert_eq!(response.body, "HTTP/1.1 200 OK\r\nServer: x");
}

#[test]
fn invalid_bytes_are_replaced() {
    let response = CurlResponse::new(b"HTTP/1.1 200 OK\r\nX: \xff\xfe\r\n\r\n\xc3(".to_vec());
    assert_eq!(response.status_code, 200);
    assert_eq!(response.headers, strings(&["X: \u{FFFD}\u{FFFD}"]));
    assert_eq!(response.body, "\u{FFFD}(");
}

#[test]
fn text_beyond_ascii_is_kept() {
    let response = parse("HTTP/1.1 200 OK\r\nX-Name: Zo\u{eb}\r\n\r\n\u{65e5}\u{672c}\u{8a9e}");
    assert_eq!(response.headers, strings(&["X-Name: Zo\u{eb}"]));
    assert_eq!(response.body, "\u{65e5}\u{672c}\u{8a9e}");
}

#[test]
fn code_with_leading_zeros() {
    let response = parse("HTTP/1.1 099 Odd\r\nA: b\r\n\r\nx");
    assert_eq!(response.status_code, 99);
    assert_eq!(response.headers, strings(&["A: b"]));
    let response = parse("HTTP/1.1 000 Odd\r\nA: b\r\n\r\nx");
    assert_eq!(response.status_code, 0);
    assert_eq!(response.headers, strings(&["A: b"]));
}

#[test]
fn status_line_may_stand_anywhere_in_the_block() {
    let response = parse("noise\r\nmore HTTP/1.0 503 Busy\r\nRetry-After: 1\r\n\r\nlater");
    assert_eq!(response.status_code, 503);
    assert_eq!(response.headers, strings(&["more HTTP/1.0 503 Busy", "Retry-After: 1"]));
    assert_eq!(response.body, "later");
}

#[test]
fn status_line_may_stand_in_a_later_block() {
    let response = parse("preface\r\n\r\nHTTP/1.1 200 OK\r\nA: b\r\n\r\nbody");
    assert_eq!(response.status_code, 200);
    assert_eq!(response.headers, strings(&["A: b"]));
    assert_eq!(response.body, "body");
}

#[test]
fn version_token_is_not_validated() {
    for (raw, code) in [
        ("HTTP/2 200\r\n\r\n", 200),
        ("HTTP/ 201\r\n\r\n", 201),
        ("HTTP/one point one\t202\r\n\r\n", 202),
        ("HTTP/1.1  203 two spaces\r\n\r\n", 203),
        ("HTTP/1.1 abc 404 200\r\n\r\n", 404),
        ("HTTP/1.1 2000\r\n\r\n", 200),
        ("HTTP/1.1\u{3000}206\r\n\r\n", 206),
    ] {
        assert_eq!(parse(raw).status_code, code, "{raw:?}");
    }
}

#[test]
fn first_match_of_a_block_decides() {
    let response = parse("HTTP/1.1 301 Moved\r\nHTTP/1.1 200 OK\r\n\r\nbody");
    assert_eq!(response.status_code, 0);
    let response = parse("HTTP/1.1 200 OK\r\nHTTP/1.1 301 Moved\r\n\r\nbody");
    assert_eq!(response.status_code, 200);
    assert_eq!(response.headers, strings(&["HTTP/1.1 301 Moved"]));
}

#[test]
fn digits_beyond_ascii_are_no_code() {
    let response = parse("HTTP/1.1 \u{662}\u{660}\u{660} OK\r\nA: b\r\n\r\nbody");
    assert_eq!(response.status_code, 0);
    assert!(response.headers.is_empty());
    assert_eq!(response.body, "body");
}

#[test]
fn line_feed_counts_as_whitespace_before_the_code() {
    let response = parse("HTTP/1.1\n200\nA: b\n\nrest\r\n\r\nbody");
    assert_eq!(response.status_code, 200);
    assert_eq!(response.headers, strings(&["200", "A: b"]));
    assert_eq!(response.body, "body");
}

#[test]
fn version_token_stays_on_its_line() {
    let response = parse("HTTP/1.1\nServer 200\r\n\r\nbody");
    assert_eq!(response.status_code, 0);
}

#[test]
fn from_text_parses_like_new() {
    let text = "HTTP/1.1 302 Found\r\n\r\nHTTP/1.1 200 OK\r\nA: b\r\n\r\n body ";
    assert_eq!(CurlResponse::from_text(text), parse(text));
    assert_eq!(CurlResponse::from_text(text).status_code, 200);
    assert_eq!(CurlResponse::from_text(text).body, "body");
}

#[test]
fn response_debug_format() {
    let response = parse("HTTP/1.1 200 OK\r\nA: b\r\n\r\nhi");
    assert_eq!(
        format!("{:?}", response),
        "CurlResponse { status_code: 200, headers: [\"A: b\"], body: \"hi\" }"
    );
}

/// The response as std and the crate `regex` give it, step by step.
fn expected(text: &str) -> (u16, Vec<String>, String) {
    let pattern = regex::Regex::new(curl_wrapper::status::STATUS_PATTERN).unwrap();
    let blocks: Vec<&str> = text.split("\r\n\r\n").collect();
    let chosen = blocks.iter().find_map(|block| {
        let code = pattern.captures(block)?.get(1)?.as_str().to_string();
        if code.starts_with('3') {
            None
        } else {
            Some((code.parse::<u16>().unwrap(), *block))
        }
    });
    let body = blocks[blocks.len() - 1].trim().to_string();
    match chosen {
        Some((status, block)) => {
            let headers = block
                .lines()
                .skip(1)
                .take_while(|line| !line.is_empty())
                .map(|line| line.trim().to_string())
                .collect();
            (status, headers, body)
        }
        None => (0, Vec::new(), body),
    }
}

/// A small deterministic generator of test texts made of `pieces`.
fn texts(pieces: &[&str], count: usize, max_pieces: usize) -> Vec<String> {
    let mut state: u64 = 0x6A09_E667_F3BC_C909;
    let mut next = move || {
        state ^= state << 13;
        state ^= state >> 7;
        state ^= state << 17;
        state
    };
    (0..count)
        .map(|_| {
            let len = (next() % (max_pieces as u64 + 1)) as usize;
            (0..len).map(|_| pieces[(next() % pieces.len() as u64) as usize]).collect()
        })
        .collect()
}

#[test]
fn parses_like_std_and_regex_step_by_step() {
    let pieces = [
        "HTTP/", "1.1", " ", "200", "301", "404", "5", "\r\n", "\r\n\r\n", "\n", "\r", "A: b",
        " OK", "body", "\t", "HTTP/2 204", "HTTP/1.1 302 Found", "\u{a0}", "\u{663}",
    ];
    for text in texts(&pieces, 4000, 12) {
        let response = CurlResponse::from_text(&text);
        let (status, headers, body) = expected(&text);
        assert_eq!(response.status_code, status, "{text:?}");
        assert_eq!(response.headers, headers, "{text:?}");
        assert_eq!(response.body, body, "{text:?}");
        assert!(response.status_code <= 999 && !(300..=399).contains(&response.status_code));
    }
}

#[test]
fn headers_and_body_are_free_of_surrounding_whitespace() {
    let pieces = ["HTTP/1.1 200 OK", "\r\n", "\r\n\r\n", " ", "\t", "A: b", "\n", "x"];
    for text in texts(&pieces, 2000, 10) {
        let response = CurlResponse::from_text(&text);
        assert_eq!(response.body.trim(), response.body, "{text:?}");
        for header in &response.headers {
            assert_eq!(header.trim(), header, "{text:?}");
        }
    }
}

#[test]
fn no_status_line_no_status() {
    let pieces = ["HTTP", "/", "1.1", " ", "20", "x00", "\r\n", "\r\n\r\n", "A: b", "3"];
    for text in texts(&pieces, 2000, 10) {
        let has_code = text.as_bytes().windows(3).any(|w| w.iter().all(u8::is_ascii_digit));
        if !text.contains("HTTP/") || !has_code {
            let response = CurlResponse::from_text(&text);
            assert_eq!(response.status_code, 0, "{text:?}");
            assert!(response.headers.is_empty(), "{text:?}");
        }
    }
}

#[test]
fn request_and_response_together() {
    let request = curl_wrapper::Curl::new("https://example.com")
        .method(curl_wrapper::Method::GET)
        .redirects(true);
    let args = request.args();
    assert_eq!(args, ["--silent", "--include", "-L", "-X", "GET", "https://example.com"]);

    let output = b"HTTP/1.1 200 OK\r\nContent-Type: text/html\r\n\r\n<html>Hi</html>";
    let response = CurlResponse::new(output.to_vec());
    assert_eq!(response.status_code, 200);
    assert_eq!(response.headers, ["Content-Type: text/html"]);
    assert_eq!(response.body, "<html>Hi</html>");
}
