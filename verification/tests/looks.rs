//! What opening a protected message found, kept under the keys it was found with.

use mail_app::ids::{BlobId, MessageId};
use mail_app::looks::{LOOKS_KEPT, Looks};

#[test]
fn a_look_is_served_under_its_keys_and_asked_again_once_they_change() {
    let mut looks: Looks<&str> = Looks::new();
    let (message, body) = (MessageId(1), Some(BlobId(7)));
    assert_eq!(looks.cached(message, body, 1), None);
    looks.keep(message, body, 1, "opened");
    assert_eq!(looks.cached(message, body, 1), Some(&"opened"));
    assert_eq!(looks.cached(message, body, 2), None, "served under keys that changed");
    assert_eq!(looks.last(message, body), Some(&"opened"));
    assert_eq!(looks.cached(message, None, 1), None, "another body is another key");
    looks.keep(message, body, 2, "opened again");
    assert_eq!(looks.cached(message, body, 2), Some(&"opened again"));
    assert_eq!(looks.cached(message, body, 1), None, "an older look of the message stayed");
}

#[test]
fn past_the_cap_the_oldest_look_goes() {
    let mut looks: Looks<u32> = Looks::new();
    for n in 0..=LOOKS_KEPT as u128 {
        looks.keep(MessageId(n), None, 0, n as u32);
    }
    assert_eq!(looks.last(MessageId(0), None), None);
    assert_eq!(looks.last(MessageId(1), None), Some(&1));
    assert_eq!(looks.cached(MessageId(LOOKS_KEPT as u128), None, 0), Some(&(LOOKS_KEPT as u32)));
}
