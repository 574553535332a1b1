use ed448_goldilocks::{
    AffinePoint, CompressedEdwardsY, ExtendedPoint, FieldElement, Scalar, TwistedExtendedPoint,
};

fn hex_to_bytes(hex: &str) -> Vec<u8> {
    assert!(hex.len() % 2 == 0);
    let digits: Vec<u8> = hex
        .chars()
        .map(|c| c.to_digit(16).expect("hex digit") as u8)
        .collect();
    digits.chunks(2).map(|pair| (pair[0] << 4) | pair[1]).collect()
}

/// Decodes 56 bytes of big-endian hex into a field element.
fn hex_to_field(hex: &str) -> FieldElement {
    assert_eq!(hex.len(), 56 * 2);
    let mut bytes = hex_to_bytes(hex);
    bytes.reverse();
    let mut arr = [0u8; 56];
    arr.copy_from_slice(&bytes);
    FieldElement::from_bytes(&arr)
}

fn hex_to_compressed(hex: &str) -> CompressedEdwardsY {
    assert_eq!(hex.len(), 57 * 2);
    let bytes = hex_to_bytes(hex);
    let mut arr = [0u8; 57];
    arr.copy_from_slice(&bytes);
    CompressedEdwardsY(arr)
}

const NEW_X: &str = "aaaaaaaaaaaaaaaaaaaaaaaaaaaaaaaaaaaaaaaaaaaaaaaaaaaaaaa955555555555555555555555555555555555555555555555555555555";
const NEW_Y: &str = "ae05e9634ad7048db359d6205086c2b0036ed7a035884dd7b7e36d728ad8c4b80d6565833a2a3098bbbcb2bed1cda06bdaeafbcdea9386ed";
const OLD_X: &str = "4F1970C66BED0DED221D15A622BF36DA9E146570470F1767EA6DE324A3D3A46412AE1AF72AB66511433B80E18B00938E2626A82BC70CC05E";
const OLD_Y: &str = "693F46716EB6BC248876203756C9C7624BEA73736CA3984087789C1E05A0C2D73AD3FF1CE67C39C4FDBD132C4ED7C8AD9808795BF230FA14";

#[test]
fn test_isogeny() {
    let x = hex_to_field(NEW_X);
    let y = hex_to_field(NEW_Y);
    let a = AffinePoint { x, y }.to_extended();
    let twist_a = a.to_twisted().to_untwisted();
    assert!(twist_a == a.double().double())
}

#[test]
fn derive_base_points() {
    // This was the original basepoint, which has order 2q.
    let old_bp = AffinePoint { x: hex_to_field(OLD_X), y: hex_to_field(OLD_Y) }.to_extended();

    // This is the basepoint given in the Ed448 paper.
    let new_bp = AffinePoint { x: hex_to_field(NEW_X), y: hex_to_field(NEW_Y) }.to_extended();

    // Doubling the old basepoint gives the new basepoint.
    assert_eq!(old_bp.double(), new_bp);

    // The generator constant is the old basepoint.
    assert_eq!(ExtendedPoint::generator(), old_bp);

    // The twisted basepoint is the isogeny image of the old basepoint.
    assert_eq!(old_bp.to_twisted(), TwistedExtendedPoint::basepoint())
}

#[test]
fn test_is_on_curve() {
    let x = hex_to_field(NEW_X);
    let y = hex_to_field(NEW_Y);
    let gen = AffinePoint { x, y }.to_extended();
    assert!(gen.is_on_curve());
}

#[test]
fn test_compress_decompress() {
    let x = hex_to_field(NEW_X);
    let y = hex_to_field(NEW_Y);
    let gen = AffinePoint { x, y }.to_extended();

    let decompressed_point = gen.compress().decompress();
    assert!(decompressed_point.is_some());

    assert!(gen == decompressed_point.unwrap());
}

#[test]
fn test_decompress_compress() {
    let bytes = hex_to_compressed("649c6a53b109897d962d033f23d01fd4e1053dddf3746d2ddce9bd66aea38ccfc3df061df03ca399eb806312ab3037c0c31523142956ada780");
    let decompressed = bytes.decompress().unwrap();

    let recompressed = decompressed.compress();

    assert_eq!(bytes.0, recompressed.0);
}

#[test]
fn test_just_decompress() {
    let bytes = hex_to_compressed("649c6a53b109897d962d033f23d01fd4e1053dddf3746d2ddce9bd66aea38ccfc3df061df03ca399eb806312ab3037c0c31523142956ada780");
    let decompressed = bytes.decompress().unwrap();

    assert_eq!(decompressed.X, hex_to_field("39c41cea305d737df00de8223a0d5f4d48c8e098e16e9b4b2f38ac353262e119cb5ff2afd6d02464702d9d01c9921243fc572f9c718e2527"));
    assert_eq!(decompressed.Y, hex_to_field("a7ad5629142315c3c03730ab126380eb99a33cf01d06dfc3cf8ca3ae66bde9dc2d6d74f3dd3d05e1d41fd0233f032d967d8909b1536a9c64"));

    let bytes = hex_to_compressed("010000000000000000000000000000000000000000000000000000000000000000000000000000000000000000000000000000000000000000");
    let decompressed = bytes.decompress().unwrap();

    assert_eq!(decompressed.X, hex_to_field("0000000000000000000000000000000000000000000000000000000000000000000000000000000000000000000000000000000000000000"));
    assert_eq!(decompressed.Y, hex_to_field("0000000000000000000000000000000000000000000000000000000000000000000000000000000000000000000000000000000000000001"));
}

#[test]
fn test_is_torsion_free() {
    assert!(ExtendedPoint::generator().is_torsion_free());
    assert!(ExtendedPoint::identity().is_torsion_free());

    let bytes = hex_to_compressed("13b6714c7a5f53101bbec88f2f17cd30f42e37fae363a5474efb4197ed6005df5861ae178a0c2c16ad378b7befed0d0904b7ced35e9f674180");
    let decompressed = bytes.decompress().unwrap();
    assert!(!decompressed.is_torsion_free());
}

#[test]
fn hash() {
    let dst = b"QUUX-V01-CS02-with-edwards448_XOF:SHAKE256_ELL2_RO_";
    let msgs: [(&[u8], &str, &str); 5] = [
        (b"", "73036d4a88949c032f01507005c133884e2f0d81f9a950826245dda9e844fc78186c39daaa7147ead3e462cff60e9c6340b58134480b4d17", "94c1d61b43728e5d784ef4fcb1f38e1075f3aef5e99866911de5a234f1aafdc26b554344742e6ba0420b71b298671bbeb2b7736618634610"),
        (b"abc", "4e0158acacffa545adb818a6ed8e0b870e6abc24dfc1dc45cf9a052e98469275d9ff0c168d6a5ac7ec05b742412ee090581f12aa398f9f8c", "894d3fa437b2d2e28cdc3bfaade035430f350ec5239b6b406b5501da6f6d6210ff26719cad83b63e97ab26a12df6dec851d6bf38e294af9a"),
        (b"abcdef0123456789", "2c25b4503fadc94b27391933b557abdecc601c13ed51c5de68389484f93dbd6c22e5f962d9babf7a39f39f994312f8ca23344847e1fbf176", "d5e6f5350f430e53a110f5ac7fcc82a96cb865aeca982029522d32601e41c042a9dfbdfbefa2b0bdcdc3bc58cca8a7cd546803083d3a8548"),
        (b"q128_qqqqqqqqqqqqqqqqqqqqqqqqqqqqqqqqqqqqqqqqqqqqqqqqqqqqqqqqqqqqqqqqqqqqqqqqqqqqqqqqqqqqqqqqqqqqqqqqqqqqqqqqqqqqqqqqqqqqqqqqqqqqqqqq", "a1861a9464ae31249a0e60bf38791f3663049a3f5378998499a83292e159a2fecff838eb9bc6939e5c6ae76eb074ad4aae39b55b72ca0b9a", "580a2798c5b904f8adfec5bd29fb49b4633cd9f8c2935eb4a0f12e5dfa0285680880296bb729c6405337525fb5ed3dff930c137314f60401"),
        (b"a512_aaaaaaaaaaaaaaaaaaaaaaaaaaaaaaaaaaaaaaaaaaaaaaaaaaaaaaaaaaaaaaaaaaaaaaaaaaaaaaaaaaaaaaaaaaaaaaaaaaaaaaaaaaaaaaaaaaaaaaaaaaaaaaaaaaaaaaaaaaaaaaaaaaaaaaaaaaaaaaaaaaaaaaaaaaaaaaaaaaaaaaaaaaaaaaaaaaaaaaaaaaaaaaaaaaaaaaaaaaaaaaaaaaaaaaaaaaaaaaaaaaaaaaaaaaaaaaaaaaaaaaaaaaaaaaaaaaaaaaaaaaaaaaaaaaaaaaaaaaaaaaaaaaaaaaaaaaaaaaaaaaaaaaaaaaaaaaaaaaaaaaaaaaaaaaaaaaaaaaaaaaaaaaaaaaaaaaaaaaaaaaaaaaaaaaaaaaaaaaaaaaaaaaaaaaaaaaaaaaaaaaaaaaaaaaaaaaaaaaaaaaaaaaaaaaaaaaaaaaaaaaaaaaaaaaaaaaaaaaaaaaaaaaaaaaaaaaaaaaaaaaaaaaaaaaaa", "987c5ac19dd4b47835466a50b2d9feba7c8491b8885a04edf577e15a9f2c98b203ec2cd3e5390b3d20bba0fa6fc3eecefb5029a317234401", "5e273fcfff6b007bb6771e90509275a71ff1480c459ded26fc7b10664db0a68aaa98bc7ecb07e49cf05b80ae5ac653fbdd14276bbd35ccbc"),
    ];

    for (msg, x, y) in msgs {
        let point = ExtendedPoint::hash(msg, dst);
        assert!(point.is_on_curve());
        let affine = point.to_affine();
        assert_eq!(affine.x, hex_to_field(x));
        assert_eq!(affine.y, hex_to_field(y));
    }
}

#[test]
fn encode() {
    let dst = b"QUUX-V01-CS02-with-edwards448_XOF:SHAKE256_ELL2_NU_";
    let msgs: [(&[u8], &str, &str); 5] = [
        (b"", "eb5a1fc376fd73230af2de0f3374087cc7f279f0460114cf0a6c12d6d044c16de34ec2350c34b26bf110377655ab77936869d085406af71e", "df5dcea6d42e8f494b279a500d09e895d26ac703d75ca6d118e8ca58bf6f608a2a383f292fce1563ff995dce75aede1fdc8e7c0c737ae9ad"),
        (b"abc", "4623a64bceaba3202df76cd8b6e3daf70164f3fcbda6d6e340f7fab5cdf89140d955f722524f5fe4d968fef6ba2853ff4ea086c2f67d8110", "abaac321a169761a8802ab5b5d10061fec1a83c670ac6bc95954700317ee5f82870120e0e2c5a21b12a0c7ad17ebd343363604c4bcecafd1"),
        (b"abcdef0123456789", "e9eb562e76db093baa43a31b7edd04ec4aadcef3389a7b9c58a19cf87f8ae3d154e134b6b3ed45847a741e33df51903da681629a4b8bcc2e", "0cf6606927ad7eb15dbc193993bc7e4dda744b311a8ec4274c8f738f74f605934582474c79260f60280fe35bd37d4347e59184cbfa12cbc4"),
        (b"q128_qqqqqqqqqqqqqqqqqqqqqqqqqqqqqqqqqqqqqqqqqqqqqqqqqqqqqqqqqqqqqqqqqqqqqqqqqqqqqqqqqqqqqqqqqqqqqqqqqqqqqqqqqqqqqqqqqqqqqqqqqqqqqqqq", "122a3234d34b26c69749f23356452bf9501efa2d94859d5ef741fef024156d9d191a03a2ad24c38186f93e02d05572575968b083d8a39738", "ddf55e74eb4414c2c1fa4aa6bc37c4ab470a3fed6bb5af1e43570309b162fb61879bb15f9ea49c712efd42d0a71666430f9f0d4a20505050"),
        (b"a512_aaaaaaaaaaaaaaaaaaaaaaaaaaaaaaaaaaaaaaaaaaaaaaaaaaaaaaaaaaaaaaaaaaaaaaaaaaaaaaaaaaaaaaaaaaaaaaaaaaaaaaaaaaaaaaaaaaaaaaaaaaaaaaaaaaaaaaaaaaaaaaaaaaaaaaaaaaaaaaaaaaaaaaaaaaaaaaaaaaaaaaaaaaaaaaaaaaaaaaaaaaaaaaaaaaaaaaaaaaaaaaaaaaaaaaaaaaaaaaaaaaaaaaaaaaaaaaaaaaaaaaaaaaaaaaaaaaaaaaaaaaaaaaaaaaaaaaaaaaaaaaaaaaaaaaaaaaaaaaaaaaaaaaaaaaaaaaaaaaaaaaaaaaaaaaaaaaaaaaaaaaaaaaaaaaaaaaaaaaaaaaaaaaaaaaaaaaaaaaaaaaaaaaaaaaaaaaaaaaaaaaaaaaaaaaaaaaaaaaaaaaaaaaaaaaaaaaaaaaaaaaaaaaaaaaaaaaaaaaaaaaaaaaaaaaaaaaaaaaaaaaaaaaaaaaaa", "221704949b1ce1ab8dd174dc9b8c56fcffa27179569ce9219c0c2fe183d3d23343a4c42a0e2e9d6b9d0feb1df3883ec489b6671d1fa64089", "ebdecfdc87142d1a919034bf22ecfad934c9a85effff14b594ae2c00943ca62a39d6ee3be9df0bb504ce8a9e1669bc6959c42ad6a1d3b686"),
    ];

    for (msg, x, y) in msgs {
        let point = ExtendedPoint::encode(msg, dst);
        assert!(point.is_on_curve());
        let affine = point.to_affine();
        assert_eq!(affine.x, hex_to_field(x));
        assert_eq!(affine.y, hex_to_field(y));
    }
}

#[test]
fn group_law_identity() {
    let g = ExtendedPoint::generator();
    let o = ExtendedPoint::identity();
    assert_eq!(g.add(&o), g);
    assert_eq!(o.add(&g), g);
    assert_eq!(g.scalar_mul(&Scalar::from_u32(0)), o);
}

#[test]
fn group_law_inverse() {
    let g = ExtendedPoint::generator();
    assert_eq!(g.add(&g.negate()), ExtendedPoint::identity());
    assert!(g.add(&g.negate()).is_identity());
}

#[test]
fn group_law_commutativity() {
    let g = ExtendedPoint::generator();
    let q = ExtendedPoint::hash_with_defaults(b"commutes");
    assert_eq!(g.add(&q), q.add(&g));
}

#[test]
fn group_law_associativity() {
    let g = ExtendedPoint::generator();
    let q = ExtendedPoint::hash_with_defaults(b"assoc-q");
    let r = ExtendedPoint::hash_with_defaults(b"assoc-r");
    assert_eq!(g.add(&q).add(&r), g.add(&q.add(&r)));
}

#[test]
fn group_law_scalar_compatibility() {
    let g = ExtendedPoint::generator();
    let q = ExtendedPoint::hash_with_defaults(b"distributes");
    let s = Scalar::from_u32(5);
    let t = Scalar::from_u32(7);
    // [s](P + Q) = [s]P + [s]Q
    assert_eq!(g.add(&q).scalar_mul(&s), g.scalar_mul(&s).add(&q.scalar_mul(&s)));
    // [s + t]P = [s]P + [t]P
    assert_eq!(g.scalar_mul(&Scalar::from_u32(12)), g.scalar_mul(&s).add(&g.scalar_mul(&t)));
    // [s * t]P = [s]([t]P)
    assert_eq!(g.scalar_mul(&Scalar::from_u32(35)), g.scalar_mul(&t).scalar_mul(&s));
}

#[test]
fn group_law_doubling() {
    let g = ExtendedPoint::generator();
    assert_eq!(g.double(), g.add(&g));
    assert_eq!(g.scalar_mul(&Scalar::from_u32(2)), g.double());
}

#[test]
fn closure_under_operations() {
    let g = ExtendedPoint::generator();
    let q = ExtendedPoint::hash_with_defaults(b"closure");
    assert!(g.add(&q).is_on_curve());
    assert!(g.double().is_on_curve());
    assert!(g.negate().is_on_curve());
    assert!(g.torque().is_on_curve());
    assert!(g.scalar_mul(&Scalar::from_u32(12345)).is_on_curve());
    assert!(ExtendedPoint::encode_with_defaults(b"closure").is_on_curve());
}

#[test]
fn torque_changes_the_point() {
    let g = ExtendedPoint::generator();
    assert!(g.torque() != g);
    assert_eq!(g.torque().torque(), g);
    assert!(!g.torque().is_torsion_free());
}

#[test]
fn decompress_rejects_non_square() {
    // y = 2 gives a ratio (1 - y^2)/(1 - d y^2) that is not a square.
    let mut bytes = [0u8; 57];
    bytes[0] = 2;
    assert!(CompressedEdwardsY(bytes).decompress().is_none());
}

#[test]
fn compress_known_vector() {
    let gen = ExtendedPoint::generator();
    let expected = hex_to_compressed("14fa30f25b790898adc8d74e2c13bdfdc4397ce61cffd33ad7c2a0051e9c78874098a36c7373ea4b62c7c9563720768824bcb66e71463f6900");
    assert_eq!(gen.compress().0, expected.0);
}

#[test]
fn to_montgomery_maps_generator_to_five() {
    let gen = ExtendedPoint::generator();
    let u = gen.to_montgomery();
    let mut expected = [0u8; 56];
    expected[0] = 5;
    assert_eq!(u.0, expected);
}

#[test]
fn field_arithmetic_round_trips() {
    let x = hex_to_field(NEW_X);
    let y = hex_to_field(NEW_Y);
    // invert really inverts
    let one = x.mul(&x.invert());
    let mut one_bytes = [0u8; 56];
    one_bytes[0] = 1;
    assert_eq!(one.to_bytes(), one_bytes);
    // bytes round-trip through from_bytes/to_bytes
    let yb = y.to_bytes();
    assert_eq!(FieldElement::from_bytes(&yb), y);
    // negation is an involution and changes the sign
    assert_eq!(x.negate().negate(), x);
    assert!(x.is_negative() != x.negate().is_negative());
}
