use phira_mp::sharing::{
    agrees, answer_site, asks_for_rooms, choice, is_shared, process_pmps_connection, site_asks,
    site_reply, site_reply_bytes, SiteReply,
};

#[test]
fn only_yes_means_yes() {
    assert!(agrees("yes\n"));
    assert!(agrees("  yes \r\n"));
    assert!(!agrees("YES"));
    assert!(!agrees("yes please"));
    assert!(!agrees(""));
}

#[test]
fn the_choice_is_kept_as_two_addresses_or_false() {
    assert_eq!(choice(true, " a.example:667\n", "b.example:666 \r\n"), "a.example:667:b.example:666");
    assert_eq!(choice(false, "a.example", "b.example"), "false");
}

#[test]
fn who_agrees_is_shared_and_who_does_not_is_not() {
    assert!(!is_shared(&choice(false, "x", "y")));
    for (site, game) in [("", ""), ("false", ""), ("x", "y")] {
        assert!(is_shared(&choice(true, site, game)));
    }
    assert!(is_shared("false\n"));
}

#[test]
fn the_website_answers_ok_or_no_or_anything() {
    assert_eq!(site_reply("ok"), SiteReply::Accepted);
    assert_eq!(site_reply("no"), SiteReply::WrongAddress);
    assert_eq!(site_reply("ok\n"), SiteReply::Unknown);
    assert_eq!(site_reply(""), SiteReply::Unknown);
}

#[test]
fn rooms_are_handed_out_on_request() {
    assert!(asks_for_rooms("GRS"));
    assert!(!asks_for_rooms("grs"));
    let kept = "[\"cus1\", \"cus2\"]".to_string();
    assert_eq!(process_pmps_connection("GRS\r\n", Some(kept.clone())), kept);
    assert_eq!(process_pmps_connection("GRS", None), "[]");
    assert_eq!(process_pmps_connection("hello", Some(kept)), "");
    assert_eq!(process_pmps_connection("hello", None), "");
}

#[test]
fn a_request_is_read_from_its_bytes() {
    let kept = "[\"cus1\"]".to_string();
    for request in [&b"GRS"[..], b"GRS\r\n", b" \t GRS", "\u{3000}GRS\u{a0}".as_bytes()] {
        assert!(site_asks(request));
        assert_eq!(answer_site(request, Some(kept.clone())), kept);
        assert_eq!(answer_site(request, None), "[]");
    }
    for request in [&b""[..], b"grs", b"GRS\0", b"GRS\xff", b"\xffGRS", b"GRS\xe3\x80", "房间".as_bytes()] {
        assert!(!site_asks(request));
        assert_eq!(answer_site(request, Some(kept.clone())), "");
        assert_eq!(answer_site(request, None), "");
    }
}

#[test]
fn the_answer_of_the_website_is_read_from_its_bytes() {
    assert_eq!(site_reply_bytes(b"ok"), SiteReply::Accepted);
    assert_eq!(site_reply_bytes(b"no"), SiteReply::WrongAddress);
    assert_eq!(site_reply_bytes(b"ok\xff"), SiteReply::Unknown);
    assert_eq!(site_reply_bytes(b"\xff"), SiteReply::Unknown);
    assert_eq!(site_reply_bytes("是".as_bytes()), SiteReply::Unknown);
    assert_eq!(site_reply_bytes(b""), SiteReply::Unknown);
}
