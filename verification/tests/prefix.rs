use eventsdb::log::stream_prefix_bound;

#[test]
fn the_bound_is_the_next_scalar_value_after_the_last_character() {
    assert_eq!(stream_prefix_bound("session-").as_deref(), Some("session."));
    assert_eq!(stream_prefix_bound("a").as_deref(), Some("b"));
    // Multi-byte: the last character moves, the ones before it do not.
    assert_eq!(stream_prefix_bound("会話-").as_deref(), Some("会話."));
    assert_eq!(stream_prefix_bound("会話").as_deref(), Some("会該"));
    // The surrogate range is not a scalar value and is stepped over.
    assert_eq!(stream_prefix_bound("\u{D7FF}").as_deref(), Some("\u{E000}"));
}

#[test]
fn char_max_carries_and_an_all_max_prefix_has_no_bound() {
    assert_eq!(
        stream_prefix_bound("a\u{10FFFF}").as_deref(),
        Some("b"),
        "the carry, the same one 0xFF takes at the byte level"
    );
    assert_eq!(
        stream_prefix_bound("a\u{10FFFF}\u{10FFFF}").as_deref(),
        Some("b")
    );
    assert_eq!(stream_prefix_bound("\u{10FFFF}"), None);
    assert_eq!(stream_prefix_bound("\u{10FFFF}\u{10FFFF}"), None);
    assert_eq!(stream_prefix_bound(""), None, "every name starts with it");
}

#[test]
fn the_range_is_exactly_the_names_that_start_with_the_prefix() {
    let names = [
        "",
        "a",
        "ab",
        "b",
        "session",
        "session-",
        "session-2026-09-01",
        "session.",
        "sessions-x",
        "sessio",
        "会話",
        "会話-1",
        "会該",
        "a\u{10FFFF}",
        "a\u{10FFFF}z",
        "a\u{10FFFF}\u{10FFFF}",
        "az",
        "b\u{10FFFF}",
    ];
    for prefix in [
        "",
        "a",
        "session-",
        "sess",
        "会話",
        "\u{10FFFF}",
        "a\u{10FFFF}",
    ] {
        let bound = stream_prefix_bound(prefix);
        for name in names {
            let in_range = name.as_bytes() >= prefix.as_bytes()
                && bound
                    .as_ref()
                    .is_none_or(|b| name.as_bytes() < b.as_bytes());
            assert_eq!(
                in_range,
                name.starts_with(prefix),
                "prefix {prefix:?}, bound {bound:?}, name {name:?}"
            );
        }
    }
}
