use create_ruxt_app::codec::{decode_content, encode_content};
use create_ruxt_app::handler::Handler;
use create_ruxt_app::subst::substitute_name;

#[test]
fn decode_strips_quotes_and_unescapes() {
    let transport = b"\"a\\\"b\\nc\"".to_vec();
    assert_eq!(decode_content(&transport), Some(b"a\"b\nc".to_vec()));
}

#[test]
fn decode_rejects_unwrapped_values() {
    assert_eq!(decode_content(&b"abc".to_vec()), None);
    assert_eq!(decode_content(&b"\"".to_vec()), None);
    assert_eq!(decode_content(&Vec::new()), None);
    assert_eq!(decode_content(&b"\"open".to_vec()), None);
}

#[test]
fn decode_keeps_lone_backslashes() {
    // A backslash that starts no recognized escape is kept as it is.
    assert_eq!(decode_content(&b"\"a\\xb\"".to_vec()), Some(b"a\\xb".to_vec()));
    assert_eq!(decode_content(&b"\"tail\\\"".to_vec()), Some(b"tail\\".to_vec()));
}

#[test]
fn encode_then_decode_round_trips() {
    let original = b"he said \"hi\"\nand left".to_vec();
    let transport = encode_content(&original);
    assert_eq!(transport, b"\"he said \\\"hi\\\"\\nand left\"".to_vec());
    assert_eq!(decode_content(&transport), Some(original));
}

#[test]
fn round_trip_of_empty_text() {
    let original = Vec::new();
    let transport = encode_content(&original);
    assert_eq!(transport, b"\"\"".to_vec());
    assert_eq!(decode_content(&transport), Some(original));
}

#[test]
fn substitution_replaces_every_occurrence() {
    let s = b"x {name} y {name}".to_vec();
    assert_eq!(substitute_name(&s, &b"app".to_vec()), b"x app y app".to_vec());
}

#[test]
fn substitution_leaves_partial_tokens() {
    let s = b"{nam} {Name} name}".to_vec();
    assert_eq!(substitute_name(&s, &b"app".to_vec()), s);
}

#[test]
fn get_name_takes_the_last_component() {
    assert_eq!(Handler::get_name(&b"work/demo".to_vec()), Some(b"demo".to_vec()));
    assert_eq!(Handler::get_name(&b"demo".to_vec()), Some(b"demo".to_vec()));
    assert_eq!(Handler::get_name(&b"work/demo/".to_vec()), Some(b"demo".to_vec()));
    assert_eq!(Handler::get_name(&b"a//".to_vec()), Some(b"a".to_vec()));
    assert_eq!(Handler::get_name(&b".hidden".to_vec()), Some(b".hidden".to_vec()));
    assert_eq!(Handler::get_name(&Vec::new()), None);
}

#[test]
fn get_name_skips_dot_components_and_refuses_parent() {
    assert_eq!(Handler::get_name(&b"work/.".to_vec()), Some(b"work".to_vec()));
    assert_eq!(Handler::get_name(&b"work/./.".to_vec()), Some(b"work".to_vec()));
    assert_eq!(Handler::get_name(&b"work/..".to_vec()), None);
    assert_eq!(Handler::get_name(&b"..".to_vec()), None);
    assert_eq!(Handler::get_name(&b"/".to_vec()), None);
    assert_eq!(Handler::get_name(&b"./".to_vec()), None);
}
