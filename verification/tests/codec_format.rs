//! The committed file formats: exact renderings, round trips through the
//! decoders, escaping, and compatibility of the JSON output with an
//! independent JSON parser.

use joydb::codec::csv::{decode_csv_posts, decode_csv_users, encode_csv_posts, encode_csv_users};
use joydb::codec::json::{
    decode_posts, decode_state, decode_users, encode_posts, encode_state, encode_users,
};
use joydb::codec::num::u128_to_string;
use joydb::codec::ron::{decode_ron_state, decode_ron_users, encode_ron_state, encode_ron_users};
use joydb::{JoydbError, Post, User};

fn sample_users() -> Vec<User> {
    vec![
        User { id: 1, name: "Alice".to_string(), age: 30 },
        User { id: 2, name: "Bob".to_string(), age: 25 },
    ]
}

#[test]
fn compact_json_rendering_is_exact() {
    let json = encode_users(&sample_users(), false);
    assert_eq!(json, r#"[{"id":1,"name":"Alice","age":30},{"id":2,"name":"Bob","age":25}]"#);
}

#[test]
fn pretty_json_puts_each_record_on_its_own_line() {
    let json = encode_users(&sample_users(), true);
    assert_eq!(
        json,
        "[\n{\"id\":1,\"name\":\"Alice\",\"age\":30},\n{\"id\":2,\"name\":\"Bob\",\"age\":25}\n]"
    );
}

#[test]
fn json_round_trips_in_both_forms() {
    let users = sample_users();
    assert_eq!(decode_users(&encode_users(&users, false)).unwrap(), users);
    assert_eq!(decode_users(&encode_users(&users, true)).unwrap(), users);
}

#[test]
fn state_round_trips_in_both_forms() {
    let users = sample_users();
    let posts = vec![Post { id: 7, title: "Seventh".to_string() }];
    for pretty in [false, true] {
        let text = encode_state(&users, &posts, pretty);
        let (u2, p2) = decode_state(&text).unwrap();
        assert_eq!(u2, users);
        assert_eq!(p2, posts);
    }
}

#[test]
fn string_escaping_round_trips() {
    let posts = vec![
        Post { id: 1, title: "say \"hi\"".to_string() },
        Post { id: 2, title: "back\\slash".to_string() },
        Post { id: 3, title: String::new() },
    ];
    let text = encode_posts(&posts, false);
    assert_eq!(decode_posts(&text).unwrap(), posts);
}

#[test]
fn decoder_accepts_whitespace_between_tokens() {
    let json = " [ {\"id\":1,\"title\":\"First\"} ,\n {\"id\":2,\"title\":\"Second\"} ]\n";
    let posts = decode_posts(json).unwrap();
    assert_eq!(posts.len(), 2);
    assert_eq!(posts[1].title, "Second");
}

#[test]
fn decoder_rejects_malformed_input() {
    assert!(matches!(decode_users("[{"), Err(JoydbError::Deserialize(_))));
    assert!(matches!(decode_users("[]trailing"), Err(JoydbError::Deserialize(_))));
    assert!(matches!(decode_users(r#"[{"id":1,"name":"A","age":300}]"#),
        Err(JoydbError::Deserialize(_))));
    assert!(matches!(
        decode_users(r#"[{"id":340282366920938463463374607431768211456,"name":"A","age":3}]"#),
        Err(JoydbError::Deserialize(_))
    ));
}

#[test]
fn json_output_is_valid_json_to_an_independent_parser() {
    let text = encode_state(&sample_users(), &vec![], true);
    let value: serde_json::Value = serde_json::from_str(&text).unwrap();
    assert_eq!(value["User"][0]["name"], serde_json::Value::String("Alice".to_string()));
    assert_eq!(value["User"][1]["age"], serde_json::Value::from(25u64));
    assert!(value["Post"].as_array().unwrap().is_empty());
}

#[test]
fn decimal_rendering_is_exact() {
    assert_eq!(u128_to_string(0), "0");
    assert_eq!(u128_to_string(12345), "12345");
    assert_eq!(
        u128_to_string(340282366920938463463374607431768211455),
        "340282366920938463463374607431768211455"
    );
}

#[test]
fn csv_rendering_is_exact_and_round_trips() {
    let users = sample_users();
    let text = encode_csv_users(&users);
    assert_eq!(text, "id,name,age\n1,\"Alice\",30\n2,\"Bob\",25\n");
    assert_eq!(decode_csv_users(&text).unwrap(), users);

    let posts = vec![Post { id: 9, title: "a \"quoted\" title".to_string() }];
    let text = encode_csv_posts(&posts);
    assert_eq!(text, "id,title\n9,\"a \"\"quoted\"\" title\"\n");
    assert_eq!(decode_csv_posts(&text).unwrap(), posts);
}

#[test]
fn csv_decoder_rejects_malformed_input() {
    assert!(matches!(decode_csv_users("no header"), Err(JoydbError::Deserialize(_))));
    assert!(matches!(decode_csv_users("id,name,age\n1,unquoted,30\n"),
        Err(JoydbError::Deserialize(_))));
}

#[test]
fn error_messages_render_every_variant() {
    assert_eq!(JoydbError::Io("disk full".to_string()).message(), "IO error: disk full");
    assert_eq!(JoydbError::Serialize("oops".to_string()).message(), "Serialize error: oops");
    assert_eq!(
        JoydbError::Deserialize("oops".to_string()).message(),
        "Deserialize error: oops"
    );
    assert_eq!(JoydbError::Custom("third-party".to_string()).message(),
        "Custom error: third-party");
    assert_eq!(JoydbError::NotFile("a/b".to_string()).message(), "a/b is not a file");
    assert_eq!(JoydbError::NotDirectory("a".to_string()).message(), "a is not a directory");
}

#[test]
fn ron_rendering_is_exact_and_round_trips() {
    let users = sample_users();
    let text = encode_ron_users(&users, false);
    assert_eq!(text, r#"[(id:1,name:"Alice",age:30),(id:2,name:"Bob",age:25)]"#);
    assert_eq!(decode_ron_users(&text).unwrap(), users);

    let posts = vec![Post { id: 3, title: "a \"deep\" one".to_string() }];
    for pretty in [false, true] {
        let text = encode_ron_state(&users, &posts, pretty);
        let (u2, p2) = decode_ron_state(&text).unwrap();
        assert_eq!(u2, users);
        assert_eq!(p2, posts);
    }
    assert!(matches!(decode_ron_users("(not an array)"), Err(JoydbError::Deserialize(_))));
}
