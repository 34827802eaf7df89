use textabus::auth::credentials_match;
use textabus::messages::{
    get_composed_approval_message, help_reply, new_number_notice, APPROVAL_MESSAGE, HELP_MESSAGE,
};
use textabus::odws::{request_url, UrlError};

#[test]
fn approval_message_is_followed_by_help() {
    let message = get_composed_approval_message();
    assert!(message.starts_with("you have been approved to beta test textabus!"));
    assert_eq!(message, format!("{}\n\n{}", APPROVAL_MESSAGE, HELP_MESSAGE));
    assert!(message.ends_with("settings clock\n"));
}

#[test]
fn help_reply_ends_with_the_site() {
    let reply = help_reply("https://textabus.example/");
    assert!(reply.starts_with("textabus commands:\n\nbus times:\n"));
    assert!(reply.ends_with("settings clock\n\nhttps://textabus.example/"));
}

#[test]
fn new_numbers_are_announced() {
    assert_eq!(new_number_notice("unknown"), "New number: unknown");
}

#[test]
fn basic_credentials_are_checked() {
    assert!(credentials_match(Some("Basic YWRtaW46c2VjcmV0"), "admin:secret"));
    assert!(!credentials_match(Some("Basic YWRtaW46c2VjcmV0"), "admin:other"));
    assert!(!credentials_match(Some("Bearer YWRtaW46c2VjcmV0"), "admin:secret"));
    assert!(!credentials_match(Some("Basic not base64!"), "admin:secret"));
    assert!(!credentials_match(None, "admin:secret"));
}

#[test]
fn upstream_urls_carry_the_key() {
    let url = request_url(
        "https://api.winnipegtransit.com",
        "/v4/stops/10619/schedule.json?usage=short",
        "SECRET-REDACTED",
    );
    assert_eq!(
        url,
        Ok("https://api.winnipegtransit.com/v4/stops/10619/schedule.json?usage=short&api-key=SECRET-REDACTED"
            .to_string())
    );
    assert_eq!(request_url("not a url", "/v4/stops.json", "k"), Err(UrlError::Invalid));
}
