use moto_ipc::channel::ChannelSize;
use moto_ipc::url::make_shared_url;

#[test]
fn shared_url_of_a_plain_service() {
    assert_eq!(
        make_shared_url("sys-io", 4096, ChannelSize::Small),
        "shared:url=sys-io;address=4096;page_type=small;page_num=1"
    );
}

#[test]
fn shared_url_of_a_mid_size_channel() {
    assert_eq!(
        make_shared_url("sys-io", 2097152, ChannelSize::Mid),
        "shared:url=sys-io;address=2097152;page_type=mid;page_num=1"
    );
}

#[test]
fn shared_url_escapes_the_service() {
    assert_eq!(
        make_shared_url("a:b=c&d", 10, ChannelSize::Small),
        "shared:url=a&col;b&eq;c&amp;d;address=10;page_type=small;page_num=1"
    );
}

#[test]
fn escapes_are_escaped_once() {
    assert_eq!(
        make_shared_url("&amp;=&col;", 9, ChannelSize::Small),
        "shared:url=&amp;amp;&eq;&amp;col;;address=9;page_type=small;page_num=1"
    );
}

#[test]
fn shared_url_of_no_service_and_the_extreme_addresses() {
    assert_eq!(
        make_shared_url("", 0, ChannelSize::Small),
        "shared:url=;address=0;page_type=small;page_num=1"
    );
    assert_eq!(
        make_shared_url("", u64::MAX, ChannelSize::Mid),
        "shared:url=;address=18446744073709551615;page_type=mid;page_num=1"
    );
}

#[test]
fn shared_url_keeps_characters_beyond_ascii() {
    assert_eq!(
        make_shared_url("d\u{e9}j\u{e0}:\u{1F980}", 7, ChannelSize::Small),
        "shared:url=d\u{e9}j\u{e0}&col;\u{1F980};address=7;page_type=small;page_num=1"
    );
}

#[test]
fn encoded_service_is_plain_and_can_be_decoded() {
    for url in ["motor:io=1&x", "&col;", "::==&&", "plain", "&amp;col;"] {
        let full = make_shared_url(url, 4096, ChannelSize::Small);
        let rest = full.strip_prefix("shared:url=").unwrap();
        let encoded = rest
            .strip_suffix(";address=4096;page_type=small;page_num=1")
            .unwrap();
        assert!(!encoded.contains(':'));
        assert!(!encoded.contains('='));
        assert_eq!(moto_sys::url_decode(encoded), url);
    }
}

#[test]
fn shared_urls_tell_services_pages_and_sizes_apart() {
    let mut seen: Vec<String> = Vec::new();
    for url in ["a", "b", "a;address=1", "a:", "a&col;", "a&"] {
        for addr in [0, 1, 10, 11, 111, 4096] {
            for size in [ChannelSize::Small, ChannelSize::Mid] {
                let full = make_shared_url(url, addr, size);
                assert!(!seen.contains(&full));
                seen.push(full);
            }
        }
    }
}
