use rs_alloc::hash::murmur_hash_64a;
use rs_alloc::string::String;

#[test]
fn murmur_of_known_inputs() {
    assert_eq!(murmur_hash_64a(b"", 0), 0);
    assert_eq!(murmur_hash_64a(b"", 0xcae4f57), 0x2021ac09bab11ce0);
    assert_eq!(murmur_hash_64a(b"a", 0xcae4f57), 0xab69b8f5f0518640);
    assert_eq!(murmur_hash_64a(b"hello", 0xcae4f57), 0xd457eb125ae58ed1);
    assert_eq!(murmur_hash_64a(b"12345678", 0xcae4f57), 0x7d164b94d5a173c3);
    assert_eq!(
        murmur_hash_64a(b"hello world, this is murmur", 0xcae4f57),
        0xac1bc7c2ff151877
    );
    assert_eq!(murmur_hash_64a(b"abc", 1), 0xb4b72636e1480c51);
}

#[test]
fn bytes_hash_with_the_fixed_seed() {
    let bytes: &[u8] = b"hello";
    assert_eq!(rs_alloc::hash::Hash::hash(&bytes), 0xd457eb125ae58ed1u64 as usize);
    assert_eq!(rs_alloc::hash::Hash::hash(&String::from("hello")), 0xd457eb125ae58ed1u64 as usize);
}

#[test]
fn integers_hash_to_themselves() {
    assert_eq!(rs_alloc::hash::Hash::hash(&0i32), 0);
    assert_eq!(rs_alloc::hash::Hash::hash(&77i32), 77);
    assert_eq!(rs_alloc::hash::Hash::hash(&-1i32), usize::MAX);
    assert_eq!(rs_alloc::hash::Hash::hash(&i32::MIN), i32::MIN as usize);
}
