use recovery_backup_core::hook::{bearer_value, start_url, status_text, stop_url};

fn reference_stop(url: &str) -> String {
    let mut modified = url.replace("{}", "stop");
    if let Some(pos) = modified.rfind("&msg=") {
        let end = modified[pos + 5..].find('&').map(|x| pos + 5 + x).unwrap_or(modified.len());
        modified.replace_range(pos..end, "");
    }
    modified
}

fn reference_start(url: &str) -> String {
    let mut modified = url.replace("{}", "start");
    let mut positions = Vec::new();
    let mut start = 0;
    while let Some(pos) = modified[start..].find("&msg=") {
        let pos = start + pos;
        positions.push(pos);
        start = pos + 5;
    }
    if positions.len() > 1 {
        let first = positions[0];
        let end = modified[first + 5..].find('&').map(|x| first + 5 + x).unwrap_or(modified.len());
        modified.replace_range(first..end, "");
    }
    if modified.ends_with('&') {
        modified.pop();
    }
    modified
}

#[test]
fn stop_drops_the_last_message() {
    assert_eq!(stop_url("http://h/api?cmd={}&msg=bye&msg=hi"), "http://h/api?cmd=stop&msg=bye");
}

#[test]
fn start_drops_the_first_of_two_messages() {
    assert_eq!(start_url("http://h/api?cmd={}&msg=bye&msg=hi"), "http://h/api?cmd=start&msg=hi");
}

#[test]
fn stop_without_message_only_fills_the_command() {
    assert_eq!(stop_url("http://h/api?cmd={}"), "http://h/api?cmd=stop");
    assert_eq!(stop_url("http://h/{}/x?msg=1"), "http://h/stop/x?msg=1");
}

#[test]
fn stop_cuts_up_to_the_next_ampersand() {
    assert_eq!(stop_url("http://h/a?c={}&msg=bye&k=v"), "http://h/a?c=stop&k=v");
    assert_eq!(stop_url("http://h/a?c={}&msg=&k=v"), "http://h/a?c=stop&k=v");
    assert_eq!(stop_url("http://h/a?c={}&msg="), "http://h/a?c=stop");
}

#[test]
fn start_keeps_a_single_message() {
    assert_eq!(start_url("http://h/a?c={}&msg=hi"), "http://h/a?c=start&msg=hi");
    assert_eq!(start_url("http://h/a?c={}"), "http://h/a?c=start");
}

#[test]
fn start_drops_only_the_first_of_three() {
    assert_eq!(start_url("u?c={}&msg=1&msg=2&msg=3"), "u?c=start&msg=2&msg=3");
}

#[test]
fn start_trims_one_trailing_ampersand() {
    assert_eq!(start_url("u?c={}&"), "u?c=start");
    assert_eq!(start_url("u?c={}&&"), "u?c=start&");
    assert_eq!(start_url("&"), "");
}

#[test]
fn every_placeholder_is_filled() {
    assert_eq!(stop_url("{}{}-{}"), "stopstop-stop");
    assert_eq!(start_url("{{}}"), "{start}");
    assert_eq!(stop_url("{ }{"), "{ }{");
    assert_eq!(stop_url(""), "");
}

#[test]
fn rewriting_agrees_with_the_plain_algorithm() {
    let templates = [
        "",
        "{}",
        "http://h/api?cmd={}&msg=bye&msg=hi",
        "http://h/api?cmd={}&msg=bye&msg=hi&",
        "http://h/api?cmd={}&msg=bye&x=1&msg=hi&y=2",
        "&msg=&msg=&msg=",
        "&msg=a&msg",
        "&msg&msg=",
        "&ms&msg=1&msg=2",
        "a&msg=1&&msg=2&",
        "http://hôte/é?c={}&msg=été&msg=hiver",
        "{}&msg={}&msg={}",
        "&msg=x{",
        "}{&msg=",
    ];
    for template in templates {
        assert_eq!(stop_url(template), reference_stop(template), "stop {:?}", template);
        assert_eq!(start_url(template), reference_start(template), "start {:?}", template);
    }
}

#[test]
fn bearer_value_has_the_scheme_in_front() {
    assert_eq!(bearer_value("t"), "Bearer t");
    assert_eq!(bearer_value(""), "Bearer ");
}

#[test]
fn status_is_rendered_in_decimal() {
    assert_eq!(status_text(Some(200)), "200");
    assert_eq!(status_text(Some(404)), "404");
    assert_eq!(status_text(Some(0)), "0");
    assert_eq!(status_text(Some(7)), "7");
    assert_eq!(status_text(Some(10)), "10");
    assert_eq!(status_text(Some(65535)), "65535");
}

#[test]
fn status_without_response_is_unknown() {
    assert_eq!(status_text(None), "unknown");
}

#[test]
fn status_agrees_with_the_standard_rendering() {
    let mut code: u16 = 0;
    loop {
        assert_eq!(status_text(Some(code)), code.to_string());
        if code == u16::MAX {
            break;
        }
        code += 1;
    }
}
