use plugin_potato_live::config::{default_false, default_true, LiveMonitorConfig, LiveRoom};
use plugin_potato_live::query::{
    handle_group_msg, is_live_query, is_lowercase_live_query, is_report_query, report_reply,
    report_result, Cooldown, GroupReply, ReportKind, COOLDOWN_NANOS,
};
use plugin_potato_live::storage::{
    aggregate_path, runtime_state_path, session_file_path, session_line,
};

#[test]
fn test_query_exact() {
    assert!(is_live_query("土豆今天直播了没"));
}

#[test]
fn test_query_no_prefix() {
    assert!(is_live_query("土豆直播了没"));
}

#[test]
fn test_query_no_prefix2() {
    assert!(is_live_query("土豆直播没"));
}

#[test]
fn test_query_status() {
    assert!(is_live_query("土豆直播情况"));
}

#[test]
fn test_query_excluded_enable() {
    assert!(!is_live_query("土豆开启直播"));
}

#[test]
fn test_query_excluded_disable() {
    assert!(!is_live_query("土豆关闭直播"));
}

#[test]
fn test_query_excluded_setting() {
    assert!(!is_live_query("土豆开播提醒设置"));
}

#[test]
fn test_query_no_name() {
    assert!(!is_live_query("今天直播了没"));
}

#[test]
fn test_query_unrelated() {
    assert!(!is_live_query("你好"));
    assert!(!is_live_query("今天天气不错"));
}

#[test]
fn test_query_empty() {
    assert!(!is_live_query(""));
}

#[test]
fn each_keyword_makes_a_query() {
    for word in ["直播", "播了", "播没", "开播", "今天", "今天有", "状态", "情况"] {
        assert!(is_live_query(&format!("土豆{}", word)));
        assert!(is_lowercase_live_query(&format!("土豆{}", word)));
    }
    assert!(!is_live_query("土豆"));
    for word in ["开启", "关闭", "开播提醒", "关播提醒", "设置"] {
        assert!(!is_live_query(&format!("土豆今天{}", word)));
    }
    assert!(is_live_query("ABC土豆今天XYZ"));
}

#[test]
fn test_report_weekly_cn() {
    assert_eq!(is_report_query("土豆周报"), Some("weekly"));
}

#[test]
fn test_report_monthly_cn() {
    assert_eq!(is_report_query("土豆月报"), Some("monthly"));
}

#[test]
fn test_report_yearly_cn() {
    assert_eq!(is_report_query("土豆年报"), Some("yearly"));
}

#[test]
fn test_report_weekly_emoji() {
    assert_eq!(is_report_query("\u{1f954}周报"), Some("weekly"));
}

#[test]
fn test_report_monthly_emoji() {
    assert_eq!(is_report_query("\u{1f954}月报"), Some("monthly"));
}

#[test]
fn test_report_yearly_emoji() {
    assert_eq!(is_report_query("\u{1f954}年报"), Some("yearly"));
}

#[test]
fn test_report_no_match() {
    assert_eq!(is_report_query("土豆直播"), None);
    assert_eq!(is_report_query("你好"), None);
    assert_eq!(is_report_query(""), None);
}

#[test]
fn the_first_pattern_in_order_wins() {
    assert_eq!(is_report_query("\u{1f954}周报 土豆年报"), Some("yearly"));
    assert_eq!(is_report_query("土豆月报 土豆周报"), Some("weekly"));
}

fn rooms() -> Vec<LiveRoom> {
    vec![
        LiveRoom { room_id: 7, name: "甲".to_string() },
        LiveRoom { room_id: 8, name: "乙".to_string() },
    ]
}

#[test]
fn a_report_is_given_once_a_minute() {
    let mut cooldown = Cooldown::new();
    let start: u64 = 5_000_000_000;
    let report = GroupReply::Report {
        kind: ReportKind::Weekly,
        room_id: 7,
        name: "甲".to_string(),
    };
    let busy = GroupReply::Text("操作过于频繁，请稍后再试".to_string());
    assert_eq!(handle_group_msg("  土豆周报\n", start, &rooms(), &mut cooldown), report);
    assert_eq!(cooldown.weekly, Some(start));
    assert_eq!(
        handle_group_msg("土豆周报", start + COOLDOWN_NANOS - 1, &rooms(), &mut cooldown),
        busy
    );
    assert_eq!(cooldown.weekly, Some(start));
    assert_eq!(
        handle_group_msg("土豆月报", start + 1, &rooms(), &mut cooldown),
        GroupReply::Report { kind: ReportKind::Monthly, room_id: 7, name: "甲".to_string() }
    );
    assert_eq!(
        handle_group_msg("土豆周报", start + COOLDOWN_NANOS, &rooms(), &mut cooldown),
        report
    );
    assert_eq!(cooldown.weekly, Some(start + COOLDOWN_NANOS));
    assert_eq!(cooldown.yearly, None);
}

#[test]
fn without_rooms_a_report_still_counts() {
    let mut cooldown = Cooldown::new();
    let none: Vec<LiveRoom> = vec![];
    assert_eq!(
        handle_group_msg("土豆年报", 1, &none, &mut cooldown),
        GroupReply::Text("暂无配置的直播间".to_string())
    );
    assert_eq!(cooldown.yearly, Some(1));
    assert_eq!(
        handle_group_msg("土豆年报", 2, &none, &mut cooldown),
        GroupReply::Text("操作过于频繁，请稍后再试".to_string())
    );
}

#[test]
fn other_messages_are_ignored() {
    let mut cooldown = Cooldown::new();
    assert_eq!(handle_group_msg("土豆直播了没", 1, &rooms(), &mut cooldown), GroupReply::Ignore);
    assert_eq!(cooldown, Cooldown::new());
}

#[test]
fn a_made_report_is_a_picture_or_an_apology() {
    let (url, done) = report_result(Some("http://a/b.png".to_string()));
    assert_eq!(report_reply(url, done), GroupReply::Image("http://a/b.png".to_string()));
    let (url, done) = report_result(None);
    assert_eq!((url.as_str(), done), ("", false));
    assert_eq!(
        report_reply(url, done),
        GroupReply::Text("报表生成失败，请稍后再试".to_string())
    );
}

#[test]
fn files_of_rooms() {
    assert_eq!(session_file_path(13160979), "sessions_13160979.json");
    assert_eq!(runtime_state_path(0), "runtime_state_0.json");
    assert_eq!(aggregate_path(u64::MAX), "aggregate_18446744073709551615.json");
    assert_ne!(session_file_path(1), session_file_path(2));
    assert_ne!(session_file_path(1), aggregate_path(1));
}

#[test]
fn lines_lose_their_white_space() {
    assert_eq!(session_line("  {\"a\": 1}\t\r"), Some("{\"a\": 1}"));
    assert_eq!(session_line("\u{3000} \u{2003}x y\u{85}\u{a0}"), Some("x y"));
    assert_eq!(session_line("\u{200b}"), Some("\u{200b}"));
    assert_eq!(session_line(" \t "), None);
    assert_eq!(session_line(""), None);
}

#[test]
fn white_space_is_what_the_contract_says() {
    for code in 0..0x11_0000u32 {
        if let Some(c) = char::from_u32(code) {
            let white = (0x9..=0xd).contains(&code)
                || [0x20, 0x85, 0xa0, 0x1680, 0x2028, 0x2029, 0x202f, 0x205f, 0x3000]
                    .contains(&code)
                || (0x2000..=0x200a).contains(&code);
            assert_eq!(session_line(&c.to_string()).is_none(), white, "{:x}", code);
        }
    }
}

#[test]
fn default_settings() {
    let config = LiveMonitorConfig::default();
    let held = LiveMonitorConfig::get(Some(&config));
    assert_eq!(held.admin(), 123456);
    assert_eq!(held.rooms(), &[LiveRoom { room_id: 123456, name: "土豆".to_string() }]);
    assert_eq!(held.push_groups(), &[123456789]);
    assert!(held.push_on_start && default_true());
    assert!(!held.push_on_end && !default_false());
    assert_eq!(held.report_api_url, None);
    assert!(!held.report_push_enabled);
}

#[test]
fn reports_are_sent_only_where_switched_on() {
    let mut config = LiveMonitorConfig::default();
    assert_eq!(config.report_endpoint(), None);
    config.report_api_url = Some("http://a".to_string());
    assert_eq!(config.report_endpoint(), None);
    config.report_push_enabled = true;
    assert_eq!(config.report_endpoint(), Some(&"http://a".to_string()));
    config.report_api_url = None;
    assert_eq!(config.report_endpoint(), None);
}
