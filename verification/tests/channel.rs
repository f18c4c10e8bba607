use moto_ipc::channel::{ChannelSize, RawChannel};
use moto_ipc::client::ClientConnection;
use moto_ipc::sys::E_INVALID_ARGUMENT;

const PAGE: usize = 0x10000;

fn small_channel() -> RawChannel {
    match ClientConnection::new(ChannelSize::Small, Ok(PAGE as u64)) {
        Ok(client) => client.raw_channel(),
        Err(e) => panic!("{}", e),
    }
}

/// A page in which each byte tells its place.
fn numbered_page() -> Vec<u8> {
    (0..4096).map(|i| (i % 251) as u8).collect()
}

#[test]
fn channel_sizes() {
    assert_eq!(ChannelSize::Small.size(), 4096);
    assert_eq!(ChannelSize::Mid.size(), 2 * 1024 * 1024);
}

#[test]
fn raw_channel_knows_its_page() {
    let channel = small_channel();
    assert_eq!(channel.addr(), PAGE);
    assert_eq!(channel.size(), 4096);
}

#[test]
fn get_gives_the_first_bytes() {
    let channel = small_channel();
    let mem = numbered_page();
    assert_eq!(channel.get::<u32>(&mem), &[0, 1, 2, 3]);
    assert_eq!(channel.get::<[u16; 3]>(&mem), &[0, 1, 2, 3, 4, 5]);
    assert_eq!(channel.get::<()>(&mem), &[0u8; 0]);
    assert_eq!(channel.get::<[u8; 4096]>(&mem), &mem[..]);
}

#[test]
fn get_mut_writes_the_first_bytes() {
    let channel = small_channel();
    let mut mem = numbered_page();
    channel.get_mut::<u32>(&mut mem).copy_from_slice(&[9, 8, 7, 6]);
    assert_eq!(&mem[..6], &[9, 8, 7, 6, 4, 5]);
    assert_eq!(&mem[4..], &numbered_page()[4..]);
}

#[test]
fn get_at_gives_consecutive_items() {
    let channel = small_channel();
    let mem = numbered_page();
    assert_eq!(
        channel.get_at::<u16>(&mem, PAGE + 10, 3),
        Ok(&[10u8, 11, 12, 13, 14, 15][..])
    );
    assert_eq!(channel.get_at::<u64>(&mem, PAGE, 512), Ok(&mem[..]));
    assert_eq!(channel.get_at::<u64>(&mem, PAGE, 513), Err(E_INVALID_ARGUMENT));
    assert_eq!(
        channel.get_at::<u64>(&mem, PAGE + 4089, 1),
        Err(E_INVALID_ARGUMENT)
    );
    assert_eq!(channel.get_at::<u64>(&mem, PAGE - 1, 1), Err(E_INVALID_ARGUMENT));
    assert_eq!(channel.get_at::<()>(&mem, PAGE + 4096, 1000), Ok(&[][..]));
}

#[test]
fn get_at_below_the_page_is_an_error_however_many_items() {
    let channel = small_channel();
    let mut mem = numbered_page();
    assert_eq!(
        channel.get_at::<u64>(&mem, PAGE - 1, usize::MAX),
        Err(E_INVALID_ARGUMENT)
    );
    assert_eq!(
        channel.get_at_mut::<u64>(&mut mem, 0, usize::MAX),
        Err(E_INVALID_ARGUMENT)
    );
}

#[test]
fn get_at_mut_writes_consecutive_items() {
    let channel = small_channel();
    let mut mem = numbered_page();
    channel
        .get_at_mut::<u16>(&mut mem, PAGE + 2, 2)
        .unwrap()
        .copy_from_slice(&[50, 51, 52, 53]);
    assert_eq!(&mem[..8], &[0, 1, 50, 51, 52, 53, 6, 7]);
    assert_eq!(&mem[6..], &numbered_page()[6..]);
    assert_eq!(
        channel.get_at_mut::<u32>(&mut mem, PAGE + 4093, 1),
        Err(E_INVALID_ARGUMENT)
    );
}

#[test]
fn get_bytes_stays_inside_the_page() {
    let channel = small_channel();
    let mem = numbered_page();
    assert_eq!(channel.get_bytes(&mem, PAGE + 3, 4), Ok(&[3u8, 4, 5, 6][..]));
    assert_eq!(channel.get_bytes(&mem, PAGE, 4096), Ok(&mem[..]));
    assert_eq!(channel.get_bytes(&mem, PAGE + 4096, 0), Ok(&[][..]));
    assert_eq!(channel.get_bytes(&mem, PAGE, 4097), Err(E_INVALID_ARGUMENT));
    assert_eq!(channel.get_bytes(&mem, PAGE + 4096, 1), Err(E_INVALID_ARGUMENT));
    assert_eq!(channel.get_bytes(&mem, PAGE + 4097, 0), Err(E_INVALID_ARGUMENT));
    assert_eq!(channel.get_bytes(&mem, PAGE - 1, 1), Err(E_INVALID_ARGUMENT));
    assert_eq!(channel.get_bytes(&mem, PAGE - 1, 0), Err(E_INVALID_ARGUMENT));
}

#[test]
fn get_bytes_mut_writes_inside_the_page() {
    let channel = small_channel();
    let mut mem = numbered_page();
    channel.get_bytes_mut(&mut mem, PAGE + 4094, 2).unwrap()[1] = 77;
    assert_eq!(mem[4094], numbered_page()[4094]);
    assert_eq!(mem[4095], 77);
    assert_eq!(
        channel.get_bytes_mut(&mut mem, PAGE + 4094, 3),
        Err(E_INVALID_ARGUMENT)
    );
    assert_eq!(
        channel.get_bytes_mut(&mut mem, PAGE - 2, 2),
        Err(E_INVALID_ARGUMENT)
    );
}

#[test]
fn put_bytes_can_be_read_back() {
    let channel = small_channel();
    let mut mem = numbered_page();
    assert_eq!(channel.put_bytes(&mut mem, b"hello", PAGE + 100), Ok(()));
    assert_eq!(channel.get_bytes(&mem, PAGE + 100, 5), Ok(&b"hello"[..]));
    assert_eq!(mem.len(), 4096);
}

#[test]
fn put_bytes_leaves_the_rest_alone() {
    let channel = small_channel();
    let mut mem = numbered_page();
    assert_eq!(channel.put_bytes(&mut mem, &[200, 201], PAGE + 4094), Ok(()));
    assert_eq!(&mem[..4094], &numbered_page()[..4094]);
    assert_eq!(&mem[4094..], &[200, 201]);
}

#[test]
fn last_put_bytes_counts() {
    let channel = small_channel();
    let mut once = numbered_page();
    let mut twice = numbered_page();
    assert_eq!(channel.put_bytes(&mut twice, b"first", PAGE), Ok(()));
    assert_eq!(channel.put_bytes(&mut twice, b"again", PAGE), Ok(()));
    assert_eq!(channel.put_bytes(&mut once, b"again", PAGE), Ok(()));
    assert_eq!(once, twice);
}

#[test]
fn put_bytes_that_do_not_fit_are_not_put() {
    let channel = small_channel();
    let mut mem = numbered_page();
    assert_eq!(
        channel.put_bytes(&mut mem, b"hello", PAGE + 4092),
        Err(E_INVALID_ARGUMENT)
    );
    assert_eq!(
        channel.put_bytes(&mut mem, b"hello", PAGE - 1),
        Err(E_INVALID_ARGUMENT)
    );
    assert_eq!(
        channel.put_bytes(&mut mem, &[1; 4097], PAGE),
        Err(E_INVALID_ARGUMENT)
    );
    assert_eq!(mem, numbered_page());
    assert_eq!(channel.put_bytes(&mut mem, &[], PAGE + 4096), Ok(()));
    assert_eq!(channel.put_bytes(&mut mem, &[1; 4096], PAGE), Ok(()));
    assert_eq!(mem, vec![1; 4096]);
}
