use sailfish_escape::fallback;
use sailfish_escape::naive;
use sailfish_escape::vector;
use sailfish_escape::{Buffer, Tier};

fn with(scanner: fn(&str, &mut Buffer), feed: &str) -> String {
    let mut buf = Buffer::new();
    scanner(feed, &mut buf);
    buf.into_string()
}

fn reference(feed: &str) -> String {
    with(naive::escape, feed)
}

fn expected(feed: &str) -> String {
    let mut out = String::new();
    for c in feed.chars() {
        match c {
            '"' => out.push_str("&quot;"),
            '&' => out.push_str("&amp;"),
            '\'' => out.push_str("&#039;"),
            '<' => out.push_str("&lt;"),
            '>' => out.push_str("&gt;"),
            other => out.push(other),
        }
    }
    out
}

fn check_all(feed: &str) {
    let want = expected(feed);
    assert_eq!(reference(feed), want);
    assert_eq!(with(fallback::escape, feed), want);
    assert_eq!(with(vector::escape_narrow, feed), want);
    assert_eq!(with(vector::escape_wide, feed), want);
}

#[test]
fn reference_scanner_examples() {
    assert_eq!(reference(""), "");
    assert_eq!(reference("<"), "&lt;");
    assert_eq!(reference("a<b>c"), "a&lt;b&gt;c");
    assert_eq!(reference("\"&<>'"), "&quot;&amp;&lt;&gt;&#039;");
    assert_eq!(reference("plain"), "plain");
}

#[test]
fn portable_scanner_examples() {
    assert_eq!(with(fallback::escape, ""), "");
    assert_eq!(with(fallback::escape, "12345678"), "12345678");
    assert_eq!(with(fallback::escape, "1234567<"), "1234567&lt;");
    assert_eq!(with(fallback::escape, "<2345678"), "&lt;2345678");
    assert_eq!(
        with(fallback::escape, "12345678'bcdefgh\"x"),
        "12345678&#039;bcdefgh&quot;x"
    );
}

#[test]
fn narrow_tier_examples() {
    assert_eq!(with(vector::escape_narrow, ""), "");
    assert_eq!(
        with(vector::escape_narrow, "0123456789abcdef"),
        "0123456789abcdef"
    );
    assert_eq!(
        with(vector::escape_narrow, "0123456789abcde&"),
        "0123456789abcde&amp;"
    );
    assert_eq!(
        with(vector::escape_narrow, "<123456789abcde>tail"),
        "&lt;123456789abcde&gt;tail"
    );
}

#[test]
fn wide_tier_examples() {
    assert_eq!(with(vector::escape_wide, ""), "");
    assert_eq!(
        with(vector::escape_wide, "0123456789abcdef0123456789abcdef"),
        "0123456789abcdef0123456789abcdef"
    );
    assert_eq!(
        with(vector::escape_wide, "'123456789abcdef0123456789abcde\"!"),
        "&#039;123456789abcdef0123456789abcde&quot;!"
    );
}

#[test]
fn scan_accepts_any_lane_count_up_to_the_mask_width() {
    for lanes in 1..=32 {
        let mut buf = Buffer::new();
        vector::scan("a<b>c&d'e\"f and some more text to fill <chunks>", &mut buf, lanes);
        assert_eq!(
            buf.as_str(),
            "a&lt;b&gt;c&amp;d&#039;e&quot;f and some more text to fill &lt;chunks&gt;"
        );
    }
}

#[test]
fn tier_run_matches_reference() {
    let feed = "if a < b && c > d { print(\"it's\") } // forty and more bytes of input";
    let want = reference(feed);
    for tier in [Tier::Portable, Tier::Narrow, Tier::Wide] {
        let mut buf = Buffer::new();
        tier.run(feed, &mut buf);
        assert_eq!(buf.as_str(), want);
    }
}

#[test]
fn clean_input_of_every_length_is_unchanged() {
    let mut feed = String::new();
    for len in 0..=80 {
        check_all(&feed);
        assert_eq!(with(vector::escape_wide, &feed), feed);
        assert_eq!(with(vector::escape_narrow, &feed), feed);
        assert_eq!(with(fallback::escape, &feed), feed);
        assert_eq!(reference(&feed), feed);
        let c: u8 = b'a' + (len % 26) as u8;
        feed.push(c as char);
    }
}

#[test]
fn one_signal_byte_at_every_position() {
    for len in 1..=70 {
        for at in 0..len {
            for signal in ['"', '&', '\'', '<', '>'] {
                let mut feed = String::new();
                for i in 0..len {
                    if i == at {
                        feed.push(signal);
                    } else {
                        feed.push('x');
                    }
                }
                check_all(&feed);
            }
        }
    }
}

#[test]
fn only_signal_bytes_of_every_length() {
    let signals = ['"', '&', '\'', '<', '>'];
    let mut feed = String::new();
    for len in 0..=70 {
        check_all(&feed);
        feed.push(signals[len % 5]);
    }
}

#[test]
fn neighbours_of_signal_bytes_are_left_alone() {
    // Bytes that differ from a signal byte in one bit.
    let feed = "!#$%()*+,-./:;=?@ 0123456789 !#$%()*+,-./:;=?@ 0123456789";
    check_all(feed);
    assert_eq!(with(fallback::escape, feed), feed);
    assert_eq!(with(vector::escape_narrow, feed), feed);
    assert_eq!(with(vector::escape_wide, feed), feed);
}

#[test]
fn multi_byte_characters_pass_through() {
    let feed = "漢字はエスケープしないはずだよ";
    assert_eq!(reference(feed), feed);
    assert_eq!(with(fallback::escape, feed), feed);
    assert_eq!(with(vector::escape_narrow, feed), feed);
    assert_eq!(with(vector::escape_wide, feed), feed);
}

#[test]
fn multi_byte_characters_next_to_signal_bytes() {
    let feed = "<漢>é&ü'𝄞\"ß<𝄞𝄞𝄞𝄞𝄞𝄞𝄞𝄞>日本語のテキスト&日本語のテキスト";
    let want = "&lt;漢&gt;é&amp;ü&#039;𝄞&quot;ß&lt;𝄞𝄞𝄞𝄞𝄞𝄞𝄞𝄞&gt;日本語のテキスト&amp;日本語のテキスト";
    assert_eq!(reference(feed), want);
    assert_eq!(with(fallback::escape, feed), want);
    assert_eq!(with(vector::escape_narrow, feed), want);
    assert_eq!(with(vector::escape_wide, feed), want);
}

#[test]
fn multi_byte_characters_across_chunk_ends() {
    // Shift a three-byte character through every offset of two chunks.
    for pad in 0..70 {
        let mut feed = String::new();
        for _ in 0..pad {
            feed.push('.');
        }
        feed.push_str("漢<字");
        check_all(&feed);
    }
}

#[test]
fn scanners_append_to_the_buffer() {
    for scanner in [
        naive::escape as fn(&str, &mut Buffer),
        fallback::escape,
        vector::escape_narrow,
        vector::escape_wide,
    ] {
        let mut buf = Buffer::from(String::from("<kept>"));
        scanner("a&b", &mut buf);
        scanner("", &mut buf);
        scanner(">", &mut buf);
        assert_eq!(buf.as_str(), "<kept>a&amp;b&gt;");
    }
}

#[test]
fn contains_signal_finds_each_signal_byte_in_each_lane() {
    for signal in [0x22u8, 0x26, 0x27, 0x3c, 0x3e] {
        for lane in 0..8 {
            let mut bytes = [b'a'; 8];
            bytes[lane] = signal;
            let word: u64 = fallback::load_word(&bytes, 0);
            assert!(fallback::contains_signal(word));
        }
    }
}

#[test]
fn contains_signal_is_exact_for_every_byte_value() {
    for value in 0..=255u8 {
        let signal = matches!(value, 0x22 | 0x26 | 0x27 | 0x3c | 0x3e);
        for lane in 0..8 {
            let mut bytes = [0u8; 8];
            bytes[lane] = value;
            let word: u64 = fallback::load_word(&bytes, 0);
            assert_eq!(fallback::contains_signal(word), signal);
            let mut high = [0xffu8; 8];
            high[lane] = value;
            let word: u64 = fallback::load_word(&high, 0);
            assert_eq!(fallback::contains_signal(word), signal);
        }
    }
}

#[test]
fn load_word_puts_the_first_byte_lowest() {
    let bytes = [0u8, 0x01, 0x02, 0x03, 0x04, 0x05, 0x06, 0x07, 0x08, 0x09];
    assert_eq!(fallback::load_word(&bytes, 1), 0x0807_0605_0403_0201u64);
    assert_eq!(fallback::load_word(&bytes, 2), 0x0908_0706_0504_0302u64);
}

#[test]
fn lane_mask_has_one_bit_per_signal_lane() {
    let bytes = b"<a>b&c'd\"efghijklmnopqrstuvwxyz<>";
    assert_eq!(vector::lane_mask(bytes, 0, 16), 0b1_0101_0101u32);
    assert_eq!(vector::lane_mask(bytes, 0, 32), 0x8000_0155u32);
    assert_eq!(vector::lane_mask(bytes, 1, 32), 0xc000_00aau32);
    assert_eq!(vector::lane_mask(bytes, 9, 16), 0u32);
    assert_eq!(vector::lane_mask(bytes, 0, 0), 0u32);
    assert_eq!(vector::lane_mask(bytes, 0, 1), 1u32);
}

#[test]
fn substitute_flushes_the_run_and_writes_the_entity() {
    let mut buf = Buffer::new();
    let next: usize = naive::substitute("abc<def", &mut buf, 1, 3);
    assert_eq!(next, 4);
    assert_eq!(buf.as_str(), "bc&lt;");
}

#[test]
fn proceed_leaves_the_last_run_pending() {
    let mut buf = Buffer::new();
    let next: usize = naive::proceed("ab&cd>efg", &mut buf, 0, 0, 9);
    assert_eq!(next, 6);
    assert_eq!(buf.as_str(), "ab&amp;cd&gt;");
    naive::finish("ab&cd>efg", &mut buf, next);
    assert_eq!(buf.as_str(), "ab&amp;cd&gt;efg");
}

#[test]
fn resume_goes_on_behind_a_pending_run() {
    let feed = "0123456789<abcdefghijklmnopqrstuvwxyz>";
    let mut buf = Buffer::new();
    fallback::resume(feed, &mut buf, 2, 5);
    assert_eq!(buf.as_str(), "23456789&lt;abcdefghijklmnopqrstuvwxyz&gt;");
}

#[test]
fn lane_hit_is_true_for_the_five_signal_bytes_only() {
    let mut hits: Vec<u8> = Vec::new();
    for value in 0..=255u8 {
        if vector::lane_hit(value) {
            hits.push(value);
        }
    }
    assert_eq!(hits, vec![0x22u8, 0x26, 0x27, 0x3c, 0x3e]);
}

#[test]
fn inputs_around_the_chunk_widths() {
    for len in [7usize, 8, 9, 15, 16, 17, 31, 32, 33, 63, 64, 65, 66, 95, 96, 97] {
        let mut feed = String::new();
        for i in 0..len {
            feed.push(if i % 7 == 3 { '&' } else { 'y' });
        }
        check_all(&feed);
        let signals: usize = feed.matches('&').count();
        assert_eq!(with(vector::escape_wide, &feed).len(), len + 4 * signals);
    }
}
