use torrent_scraper::record::{
    is_thread_user_avatar, is_user, is_zero, is_zero_u64, thread_user_avatar, user,
};
use torrent_scraper::text::{chars_of, string_of};

#[test]
fn zero_is_what_a_record_leaves_out() {
    assert!(is_zero(&0));
    assert!(!is_zero(&1));
    assert!(!is_zero(&usize::MAX));
    assert!(is_zero_u64(&0));
    assert!(!is_zero_u64(&7));
}

#[test]
fn the_default_class_is_user() {
    assert_eq!(user(), "user");
    assert!(is_user(&user()));
    assert!(is_user(&String::from("user")));
    assert!(!is_user(&String::from("users")));
    assert!(!is_user(&String::from("use")));
    assert!(!is_user(&String::from("User")));
    assert!(!is_user(&String::new()));
}

#[test]
fn the_default_avatar_is_the_thread_user() {
    assert_eq!(thread_user_avatar(), "/images/thread-user.jpg");
    assert!(is_thread_user_avatar(&thread_user_avatar()));
    assert!(!is_thread_user_avatar(&String::from("/images/avatar.jpg")));
    assert!(!is_thread_user_avatar(&String::new()));
}

#[test]
fn a_left_out_field_reads_back_as_it_was() {
    for class in ["user", "vip", ""] {
        let class = String::from(class);
        let read = if is_user(&class) { user() } else { class.clone() };
        assert_eq!(read, class);
    }
    for avatar in ["/images/thread-user.jpg", "/images/a.jpg"] {
        let avatar = String::from(avatar);
        let read = if is_thread_user_avatar(&avatar) { thread_user_avatar() } else { avatar.clone() };
        assert_eq!(read, avatar);
    }
}

#[test]
fn characters_and_strings_convert_both_ways() {
    assert_eq!(chars_of("a\u{e9}\u{1f600}z"), vec!['a', '\u{e9}', '\u{1f600}', 'z']);
    assert_eq!(chars_of(""), Vec::<char>::new());
    assert_eq!(string_of(&['a', '\u{e9}', '\u{1f600}', 'z']), "a\u{e9}\u{1f600}z");
    assert_eq!(string_of(&[]), "");
    assert_eq!(string_of(&chars_of("round trip")), "round trip");
}
