use piscine::csv::{decode_csv, encode_csv, DecodingError, EncodingError, Field, Record};

#[derive(Debug, PartialEq)]
struct User {
    name: String,
    age: u32,
}

impl Record for User {
    fn encode(&self, target: &mut String) -> Result<(), EncodingError> {
        Field::encode(&self.name, target)?;
        target.push(',');
        Field::encode(&self.age, target)?;
        Ok(())
    }

    fn decode(line: &str) -> Result<Self, DecodingError> {
        let mut splits = line.split(',');

        let name = match splits.next() {
            Some(field) => Field::decode(field)?,
            None => return Err(DecodingError),
        };
        let age = match splits.next() {
            Some(field) => Field::decode(field)?,
            None => return Err(DecodingError),
        };
        if splits.next().is_some() {
            return Err(DecodingError);
        }

        Ok(Self { name, age })
    }
}

struct MyType {
    id: u32,
    name: String,
}

impl Record for MyType {
    fn encode(&self, target: &mut String) -> Result<(), EncodingError> {
        Field::encode(&self.id, target)?;
        target.push(',');
        Field::encode(&self.name, target)?;
        Ok(())
    }

    fn decode(line: &str) -> Result<Self, DecodingError> {
        let mut splits = line.split(',');

        let id = match splits.next() {
            Some(field) => Field::decode(field)?,
            None => return Err(DecodingError),
        };
        let name = match splits.next() {
            Some(field) => Field::decode(field)?,
            None => return Err(DecodingError),
        };
        if splits.next().is_some() {
            return Err(DecodingError);
        }

        Ok(Self { id, name })
    }
}

#[test]
fn test_encode() {
    let database = [
        User {
            name: "aaa".into(),
            age: 23,
        },
        User {
            name: "bb".into(),
            age: 2,
        },
    ];

    let csv = encode_csv(&database).unwrap();

    assert_eq!(
        csv,
        "\
        aaa,23\n\
        bb,2\n\
        "
    );
}

#[test]
fn test_decode() {
    let csv = "\
        hello,2\n\
        yes,5\n\
        no,100\n\
    ";

    let database: Vec<User> = decode_csv(csv).unwrap();

    assert_eq!(
        database,
        [
            User {
                name: "hello".into(),
                age: 2
            },
            User {
                name: "yes".into(),
                age: 5
            },
            User {
                name: "no".into(),
                age: 100
            },
        ]
    );
}

#[test]
fn decoding_error() {
    let csv = "\
        hello,2\n\
        yes,6\n\
        no,23,hello\n\
    ";

    decode_csv::<User>(csv).unwrap_err();
}

#[test]
fn test_impl_record() {
    let records = [
        MyType {
            id: 10,
            name: "Marvin".into(),
        },
        MyType {
            id: 11,
            name: "Marvin".into(),
        },
        MyType {
            id: 12,
            name: "Marvin".into(),
        },
    ];

    let csv = encode_csv(&records).unwrap();
    assert_eq!(
        csv,
        "\
        10,Marvin\n\
        11,Marvin\n\
        12,Marvin\n\
        "
    );
}

#[test]
fn encoding_error_on_separator() {
    let row = [User {
        name: "a,b".into(),
        age: 1,
    }];
    encode_csv(&row).unwrap_err();
}

#[test]
fn optional_fields_round_trip() {
    let none: Option<u32> = Field::decode("").unwrap();
    assert_eq!(none, None);
    let some: Option<u32> = Field::decode("5").unwrap();
    assert_eq!(some, Some(5));
    let bad: Result<Option<u32>, _> = Field::decode("x");
    assert!(bad.is_err());
}
