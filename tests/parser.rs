use log_format_parser::error::ParseErr;
use log_format_parser::{new, Parser};
use std::collections::HashMap;

fn compile(t: &str) -> Parser {
    new(t.to_owned())
}

#[test]
fn test_parser() {
    let mut test_table = HashMap::<&str, Vec<&str>>::new();
    test_table.insert(
        r#"$remote_addr - $scheme [$time_local] "$request" $status $body_bytes_sent "$http_referer" "$http_user_agent" "$http_x_forwarded_for" "$host" "$upstream_addr" "$upstream_cache_status" $request_time $upstream_response_time"#,
        vec![
            r#"113.106.106.3 - http [04/Aug/2020:14:18:07 +0800] "GET /[%20%20%20%20%20%7B%20%20%20%20%20%20%20%20%20%22ploweufhwewefwef%22:%22com.pub.nativeads.EventNative%22,%20%20%20%20%20%20%20%20%20%22pluwfwefn%22:%22ad_%22,%20%20%20%20%20%20%20%20%20%22ad_type%22:%222%22,%20%20%20%20%20%20%20%20%20%22show_confirm_dialog%22:%222%22,%20%20%20%20%20%20%20%20%20%22logo_gravity%22:%22left_top%22%20%20%20%20%20%20%20%20%20%7D] HTTP/1.1" 404 857 "http://is.dafaq.losersoft.net/edit?type=edit&id=597&resourceId=1" "Mozilla/5.0 (Windows NT 10.0; Win64; x64; rv:78.0) Gecko/20100101 Firefox/78.0" "-" "losersoft.net" "172.10.49.100:38283" "-" 0.075 0.075"#,
            r#"120.92.45.13 - http [06/Aug/2020:00:53:56 +0800] "HEAD / HTTP/1.0" 301 0 "-" "-" "100.67.95.34" "dafaq.cn" "-" "-" 0.000 -"#,
            r#"49.112.65.214 - https [06/Aug/2020:00:53:56 +0800] "POST /sdk/23432 HTTP/2.0" 200 0 "-" "Android-6.0.1 Version/12.6.1 Chan/48394" "-" "service.losersoft-service.com" "172.48.61.181:31482" "-" 0.002 0.002"#,
            r#"2408:84e5:285:9286:944a:a5af:e2b4:fd4b - https [06/Aug/2020:00:55:20 +0800] "POST /op/poByVersion HTTP/2.0" 200 2345 "-" "Android-10 Version/12.6.1 Chan/48349" "-" "api.dafaq.cn" "172.30.61.145:34822" "-" 0.030 0.030"#,
            r#"2408:84f3:5212:621d:ded5:d1b4:4743:b1df - https [06/Aug/2020:00:55:20 +0800] "GET /time HTTP/2.0" 200 10 "-" "okhttp/3.11.0" "-" "api.dafaq.cn" "172.30.61.147:34928" "-" 0.000 0.000"#,
        ],
    );
    test_table.insert(r#"abc$remote_addr"#, vec![r#"123"#]);
    test_table.insert(r#"abc$remote_addr dfg"#, vec![r#"abc123"#]);
    for (&schema, contents) in test_table.iter() {
        let parser = new(schema.to_owned());
        println!("{:?}", parser);
        for content in contents {
            let res = parser.parse(content);
            println!("{:?}", res);
        }
    }
}

#[test]
fn full_access_log_line() {
    let p = compile(
        r#"$remote_addr - $scheme [$time_local] "$request" $status $body_bytes_sent"#,
    );
    let line = r#"120.92.45.13 - http [06/Aug/2020:00:53:56 +0800] "HEAD / HTTP/1.0" 301 0"#;
    let f = p.parse(line).unwrap();
    assert_eq!(f.get("remote_addr"), Ok("120.92.45.13"));
    assert_eq!(f.get("scheme"), Ok("http"));
    assert_eq!(f.get("time_local"), Ok("06/Aug/2020:00:53:56 +0800"));
    assert_eq!(f.get("request"), Ok("HEAD / HTTP/1.0"));
    assert_eq!(f.get("_http_method"), Ok("HEAD"));
    assert_eq!(f.get("_path"), Ok("/"));
    assert_eq!(f.get("_http_version"), Ok("HTTP/1.0"));
    assert_eq!(f.get("status"), Ok("301"));
    assert_eq!(f.get("body_bytes_sent"), Ok("0"));
}

#[test]
fn matched_keys_are_the_declared_ones() {
    let p = compile("$a [$b] $c");
    let f = p.parse("1 [2] 3").unwrap();
    assert_eq!(f.get("a"), Ok("1"));
    assert_eq!(f.get("b"), Ok("2"));
    assert_eq!(f.get("c"), Ok("3"));
    assert!(f.get("_http_method").is_err());
    assert!(f.get("_path").is_err());
    assert!(f.get("_http_version").is_err());
}

#[test]
fn literal_mismatch() {
    let p = compile("abc$x");
    assert_eq!(
        p.parse("xyz123").unwrap_err(),
        ParseErr::WrongSequence { expected: "abc".to_owned(), actual: "xyz".to_owned() }
    );
}

#[test]
fn literal_mismatch_on_short_line() {
    let p = compile("abc$remote_addr");
    assert_eq!(
        p.parse("12").unwrap_err(),
        ParseErr::WrongSequence { expected: "abc".to_owned(), actual: "12".to_owned() }
    );
    assert_eq!(
        p.parse("123").unwrap_err(),
        ParseErr::WrongSequence { expected: "abc".to_owned(), actual: "123".to_owned() }
    );
}

#[test]
fn terminal_variable_captures_remainder() {
    let p = compile("$a");
    let f = p.parse("hello world").unwrap();
    assert_eq!(f.get("a"), Ok("hello world"));
}

#[test]
fn delimiter_bounded_capture() {
    let p = compile("$a-$b");
    let f = p.parse("foo-bar").unwrap();
    assert_eq!(f.get("a"), Ok("foo"));
    assert_eq!(f.get("b"), Ok("bar"));
}

#[test]
fn leftmost_delimiter_wins() {
    let p = compile("$a-$b");
    let f = p.parse("x-y-z").unwrap();
    assert_eq!(f.get("a"), Ok("x"));
    assert_eq!(f.get("b"), Ok("y-z"));
}

#[test]
fn end_of_line_leniency() {
    let p = compile("$a-end");
    let f = p.parse("value").unwrap();
    assert_eq!(f.get("a"), Ok("value"));
}

#[test]
fn end_of_line_leniency_after_leading_literal() {
    let p = compile("abc$remote_addr dfg");
    let f = p.parse("abc123").unwrap();
    assert_eq!(f.get("remote_addr"), Ok("123"));
}

#[test]
fn truncated_line_with_more_variables_is_a_field_mismatch() {
    let p = compile("$a-$b");
    assert_eq!(
        p.parse("foo").unwrap_err(),
        ParseErr::FieldMismatch { expected: 3, actual: 2 }
    );
}

#[test]
fn request_adapter() {
    let p = compile("[$request]");
    let f = p.parse("[GET /path HTTP/1.1]").unwrap();
    assert_eq!(f.get("request"), Ok("GET /path HTTP/1.1"));
    assert_eq!(f.get("_http_method"), Ok("GET"));
    assert_eq!(f.get("_path"), Ok("/path"));
    assert_eq!(f.get("_http_version"), Ok("HTTP/1.1"));
}

#[test]
fn request_adapter_one_token() {
    let p = compile("[$request]");
    assert_eq!(p.parse("[GET]").unwrap_err(), ParseErr::MalformedRequestField);
}

#[test]
fn request_adapter_four_tokens() {
    let p = compile("$request");
    assert_eq!(p.parse("GET / HTTP/1.1 x").unwrap_err(), ParseErr::MalformedRequestField);
}

#[test]
fn request_adapter_empty_token() {
    let p = compile("$request");
    let f = p.parse("GET  HTTP/1.1").unwrap();
    assert_eq!(f.get("_http_method"), Ok("GET"));
    assert_eq!(f.get("_path"), Ok(""));
    assert_eq!(f.get("_http_version"), Ok("HTTP/1.1"));
}

#[test]
fn request_adapter_when_line_ends_early() {
    let p = compile("$request!");
    let f = p.parse("PUT /x HTTP/2.0").unwrap();
    assert_eq!(f.get("_http_method"), Ok("PUT"));
    assert_eq!(f.get("_path"), Ok("/x"));
}

#[test]
fn compiling_twice_is_idempotent() {
    let t = "$a - [$b] \"$request\"";
    let p = compile(t);
    let q = compile(t);
    assert_eq!(format!("{:?}", p), format!("{:?}", q));
    let line = "1 - [2] \"GET / HTTP/1.1\"";
    let f = p.parse(line).unwrap();
    let g = q.parse(line).unwrap();
    for k in ["a", "b", "request", "_http_method", "_path", "_http_version", "zz"] {
        assert_eq!(f.get(k), g.get(k));
    }
    let h = p.parse(line).unwrap();
    for k in ["a", "b", "request", "_http_method", "_path", "_http_version", "zz"] {
        assert_eq!(f.get(k), h.get(k));
    }
}

#[test]
fn field_lookup_miss() {
    let p = compile("$a-$b");
    let f = p.parse("foo-bar").unwrap();
    assert_eq!(f.get("c"), Err(ParseErr::NoField { field: "c".to_owned() }));
}

#[test]
fn adjacent_variables_are_rejected() {
    let p = compile("$a$b");
    assert_eq!(
        p.parse("xy").unwrap_err(),
        ParseErr::WrongSequence { expected: "a string".to_owned(), actual: "unknown".to_owned() }
    );
}

#[test]
fn empty_template_matches_with_no_fields() {
    let p = compile("");
    let f = p.parse("anything").unwrap();
    assert!(f.get("anything").is_err());
}

#[test]
fn literal_only_template() {
    let p = compile("abc");
    assert!(p.parse("abcdef").is_ok());
    assert!(p.parse("abd").is_err());
}

#[test]
fn duplicate_names_keep_the_last_value() {
    let p = compile("$a-$a");
    let f = p.parse("x-y").unwrap();
    assert_eq!(f.get("a"), Ok("y"));
}

#[test]
fn bare_dollar_gives_an_empty_name() {
    let p = compile("$-$b");
    let f = p.parse("q-r").unwrap();
    assert_eq!(f.get(""), Ok("q"));
    assert_eq!(f.get("b"), Ok("r"));
}

#[test]
fn name_stops_at_first_non_identifier() {
    let p = compile("$a_1.b");
    let f = p.parse("v.b").unwrap();
    assert_eq!(f.get("a_1"), Ok("v"));
}

#[test]
fn non_ascii_text() {
    let p = compile("é$a→$b");
    let f = p.parse("éñ→ü").unwrap();
    assert_eq!(f.get("a"), Ok("ñ"));
    assert_eq!(f.get("b"), Ok("ü"));
}

#[test]
fn empty_line_against_variable() {
    let p = compile("$a");
    let f = p.parse("").unwrap();
    assert_eq!(f.get("a"), Ok(""));
}
