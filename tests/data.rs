use hieronymus::data::{Direction, Hand, Identifier, IdentifierRef, ParseIdentifierError, Position};
use hieronymus::parse::ParseError;

#[test]
fn position_round_trip() {
    let cases = [
        (0, 0, 0),
        (1, 2, 3),
        (-1, -1, -1),
        (-(1 << 25), -(1 << 11), -(1 << 25)),
        ((1 << 25) - 1, (1 << 11) - 1, (1 << 25) - 1),
        (18357644, 831, -20882616),
    ];
    for (x, y, z) in cases {
        let p = Position::new(x, y, z);
        assert_eq!((p.x(), p.y(), p.z()), (x, y, z));
    }
}

#[test]
fn position_layout() {
    // x in the top 26 bits, then z, then y in the low 12.
    let p = Position::new(18357644, 831, -20882616);
    assert_eq!(p.0, 0x4607632c15b4833f);
    assert_eq!(Position::new(1, 0, 0).0, 1 << 38);
    assert_eq!(Position::new(0, 0, 1).0, 1 << 12);
    assert_eq!(Position::new(0, 1, 0).0, 1);
    let bytes = 0x4607632c15b4833fu64.to_be_bytes();
    let (rest, q) = Position::parse(&bytes).unwrap();
    assert!(rest.is_empty());
    assert_eq!(q, p);
}

#[test]
fn identifiers() {
    let id = IdentifierRef::try_from("minecraft:worldgen/biome").unwrap();
    assert_eq!(id.namespace, "minecraft");
    assert_eq!(id.path, "worldgen/biome");
    let owned = Identifier::try_from("hieronymus:wonderland").unwrap();
    assert_eq!(owned.namespace, "hieronymus");
    assert_eq!(owned.path, "wonderland");
    assert_eq!(format!("{}:{}", owned.namespace, owned.path), "hieronymus:wonderland");
}

#[test]
fn identifier_errors() {
    assert_eq!(IdentifierRef::try_from("stone").unwrap_err(), ParseIdentifierError::ExpectedSeparator);
    assert_eq!(IdentifierRef::try_from("a:b:c").unwrap_err(), ParseIdentifierError::InvalidCharacterInPath(':'));
    assert_eq!(IdentifierRef::try_from("Mc:stone").unwrap_err(), ParseIdentifierError::InvalidCharacterInNamespace('M'));
    assert_eq!(IdentifierRef::try_from("mc/x:stone").unwrap_err(), ParseIdentifierError::InvalidCharacterInNamespace('/'));
    assert_eq!(IdentifierRef::try_from("mc:st one").unwrap_err(), ParseIdentifierError::InvalidCharacterInPath(' '));
    assert_eq!(IdentifierRef::try_from("é:x").unwrap_err(), ParseIdentifierError::NotAscii);
    assert_eq!(IdentifierRef::try_from(":x").unwrap_err(), ParseIdentifierError::EmptyNamespace);
    assert_eq!(IdentifierRef::try_from(":X").unwrap_err(), ParseIdentifierError::InvalidCharacterInPath('X'));
    assert_eq!(IdentifierRef::try_from("A:").unwrap_err(), ParseIdentifierError::InvalidCharacterInNamespace('A'));
    assert_eq!(IdentifierRef::try_from("x:").unwrap_err(), ParseIdentifierError::EmptyPath);
}

#[test]
fn identifier_on_the_wire() {
    let (rest, id) = Identifier::parse(b"\x0fminecraft:stone!").unwrap();
    assert_eq!(rest, b"!");
    assert_eq!((id.namespace.as_str(), id.path.as_str()), ("minecraft", "stone"));
    assert_eq!(Identifier::parse(b"\x05stone").unwrap_err(), ParseError::InvalidIdentifier);
}

#[test]
fn small_enumerations() {
    assert_eq!(Hand::parse(&[1]).unwrap().1, Hand::Offhand);
    assert_eq!(Hand::parse(&[2]).unwrap_err(), ParseError::InvalidEnumValue(2));
    assert_eq!(Direction::parse(&[5]).unwrap().1, Direction::East);
    assert_eq!(Direction::parse(&[6]).unwrap_err(), ParseError::InvalidEnumValue(6));
}
