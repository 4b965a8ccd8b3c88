use perlmod::digest::fnv64a;

#[test]
fn test_hashes() {
    const HELLO_YOU_H: u64 = 0xdb61ca777f4b8ba0;
    let hash = fnv64a("Hello You".as_bytes());
    assert_eq!(hash, HELLO_YOU_H, "hash = 0x{hash:x}, expected 0x{LO_H:x}");

    const LO_H: u64 = 0x1250b4191dafc2a4;
    let hash = fnv64a("lo ".as_bytes());
    assert_eq!(hash, LO_H, "hash = 0x{hash:x}, expected 0x{LO_H:x}");

    const EMO_ROBOT_H: u64 = 0x5631099f8622bde8;
    let hash = fnv64a("emoji 🤖".as_bytes());
    assert_eq!(
        hash, EMO_ROBOT_H,
        "hash = 0x{hash:x}, expected 0x{EMO_ROBOT_H:x}"
    );
}
