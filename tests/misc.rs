use chat_core::args::Args;
use chat_core::blob::{blob_name, name_char, NAME_LEN};
use chat_core::post::post;

#[test]
fn blob_name_has_random_prefix_dot_and_extension() {
    let name = blob_name("png");
    assert_eq!(name.len(), NAME_LEN + 4);
    assert!(name[..NAME_LEN].chars().all(|c| c.is_ascii_alphanumeric()));
    assert_eq!(&name[NAME_LEN..], ".png");
}

#[test]
fn blob_names_differ() {
    let a = blob_name("txt");
    let b = blob_name("txt");
    assert_ne!(a, b);
}

#[test]
fn blob_name_with_empty_and_non_ascii_extension() {
    assert!(blob_name("").ends_with('.'));
    let name = blob_name("картинка");
    assert!(name.ends_with(".картинка"));
    assert_eq!(name.chars().count(), NAME_LEN + 1 + 8);
}

#[test]
fn name_char_maps_draws_to_alphabets() {
    assert_eq!(name_char(0, 0), b'a');
    assert_eq!(name_char(0, 25), b'z');
    assert_eq!(name_char(1, 0), b'A');
    assert_eq!(name_char(1, 25), b'Z');
    assert_eq!(name_char(2, 0), b'0');
    assert_eq!(name_char(2, 9), b'9');
}

#[test]
fn args_default_and_custom_address() {
    assert_eq!(Args::default().address(), "0.0.0.0:4567");
    assert_eq!(Args::new("127.0.0.1:9000".to_string()).address(), "127.0.0.1:9000");
}

#[test]
fn post_delivers_in_order_through_shared_queue() {
    let (sender, receiver) = post::<u32>();
    assert_eq!(receiver.take(), None);
    sender.push(1);
    sender.push(2);
    sender.push(3);
    assert_eq!(receiver.take(), Some(1));
    let mut it = receiver.iter();
    assert_eq!(it.next(), Some(2));
    assert_eq!(it.next(), Some(3));
    assert_eq!(it.next(), None);
    sender.push(4);
    assert_eq!(receiver.take(), Some(4));
    assert_eq!(receiver.take(), None);
}
