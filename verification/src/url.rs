//! The URL under which the two ends of a shared channel meet.

use crate::channel::ChannelSize;
use vstd::prelude::*;
use vstd::string::StringExecFns;

verus! {

/// How one character of a URL is written inside another URL.
pub open spec fn escaped(c: char) -> Seq<char> {
    if c == '&' {
        seq!['&', 'a', 'm', 'p', ';']
    } else if c == ':' {
        seq!['&', 'c', 'o', 'l', ';']
    } else if c == '=' {
        seq!['&', 'e', 'q', ';']
    } else {
        seq![c]
    }
}

/// A URL written inside another URL: each character escaped on its own.
pub open spec fn url_encoded(url: Seq<char>) -> Seq<char>
    decreases url.len(),
{
    if url.len() == 0 {
        seq![]
    } else {
        escaped(url.first()) + url_encoded(url.drop_first())
    }
}

/// The decimal digit that stands for `d`.
pub open spec fn digit(d: int) -> char
    recommends
        0 <= d < 10,
{
    ('0' as int + d) as char
}

/// A number in decimal, without leading zeros.
pub open spec fn decimal(n: nat) -> Seq<char>
    decreases n,
{
    if n < 10 {
        seq![digit(n as int)]
    } else {
        decimal(n / 10).push(digit((n % 10) as int))
    }
}

/// The URL that names one end of a shared channel to the kernel: the service,
/// and the page of this process that the channel is to share.
pub open spec fn shared_url(url: Seq<char>, smem_addr: u64, channel_size: ChannelSize) -> Seq<char> {
    "shared:url="@ + url_encoded(url) + ";address="@ + decimal(smem_addr as nat) + ";page_type="@
        + channel_size.page_type() + ";page_num=1"@
}

/// Calls `moto_sys::url_encode`, which replaces every `&` of `url` by `&amp;`,
/// then every `:` by `&col;`, then every `=` by `&eq;`. No replacement holds a
/// character that a later one replaces, so each character of `url` is escaped
/// on its own: that is what is claimed of it.
#[verifier::external_body]
fn url_encode(url: &str) -> (encoded: String)
    ensures
        encoded@ == url_encoded(url@),
{
    moto_sys::url_encode(url)
}

/// Appends the digit for `d`.
fn push_digit(text: &mut String, d: u64)
    requires
        d < 10,
    ensures
        final(text)@ == old(text)@.push(digit(d as int)),
{
    let ghost before = text@;
    proof {
        reveal_strlit("0");
        reveal_strlit("1");
        reveal_strlit("2");
        reveal_strlit("3");
        reveal_strlit("4");
        reveal_strlit("5");
        reveal_strlit("6");
        reveal_strlit("7");
        reveal_strlit("8");
        reveal_strlit("9");
    }
    let s: &str = if d == 0 {
        "0"
    } else if d == 1 {
        "1"
    } else if d == 2 {
        "2"
    } else if d == 3 {
        "3"
    } else if d == 4 {
        "4"
    } else if d == 5 {
        "5"
    } else if d == 6 {
        "6"
    } else if d == 7 {
        "7"
    } else if d == 8 {
        "8"
    } else {
        "9"
    };
    text.append(s);
    assert(s@ =~= seq![digit(d as int)]);
    assert(text@ =~= before.push(digit(d as int)));
}

/// Appends `n` in decimal.
fn push_decimal(text: &mut String, n: u64)
    ensures
        final(text)@ == old(text)@ + decimal(n as nat),
    decreases n,
{
    let ghost before = text@;
    if n >= 10 {
        push_decimal(text, n / 10);
    }
    push_digit(text, n % 10);
    assert(text@ =~= before + decimal(n as nat));
}

/// The URL that opens one end of a shared channel for the service at `url`.
pub fn make_shared_url(url: &str, smem_addr: u64, channel_size: ChannelSize) -> (full_url: String)
    ensures
        full_url@ == shared_url(url@, smem_addr, channel_size),
{
    let encoded: String = url_encode(url);
    let mut full_url: String = String::new();
    full_url.append("shared:url=");
    full_url.append(encoded.as_str());
    full_url.append(";address=");
    push_decimal(&mut full_url, smem_addr);
    full_url.append(";page_type=");
    match channel_size {
        ChannelSize::Small => full_url.append("small"),
        ChannelSize::Mid => full_url.append("mid"),
    }
    full_url.append(";page_num=1");
    assert(full_url@ =~= shared_url(url@, smem_addr, channel_size));
    full_url
}

} // verus!
