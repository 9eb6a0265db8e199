use csv_importer::models::Person;
use csv_importer::notify_logic::read_vector_of_persons_from_reader;

/// The records as the csv crate's own typed reading gives them, field by
/// place, for data whose header is `Id,Name,Age`.
fn by_place(data: &[u8]) -> Option<Vec<Person>> {
    let mut persons = Vec::new();
    for row in csv::Reader::from_reader(data).deserialize::<(u64, String, u8)>() {
        let (id, first_name, age) = row.ok()?;
        persons.push(Person { id, first_name, age });
    }
    Some(persons)
}

fn agree(body: &str) {
    let data = format!("Id,Name,Age\n{}", body);
    assert_eq!(
        read_vector_of_persons_from_reader(data.as_bytes()).ok(),
        by_place(data.as_bytes()),
        "data {:?}",
        data
    );
}

#[test]
fn good_files_agree_with_typed_reading() {
    agree("");
    agree("1,Peter,45\n");
    agree("1,Peter,45\n2,Mary,22\n");
    agree("1,Peter,45");
    agree("\n\n1,Peter,45\r\n\r\n2,Mary,22\r\n");
    agree("1,\"Peter, \"\"the\"\" first\",45\n");
    agree("1,\"two\nlines\",45\n");
    agree("18446744073709551615,,255\n0,x,0\n");
    agree("+7,a,+8\n0x10,b,0xff\n0xAb,c,0x0\n");
    agree("1, spaced ,45\n");
}

#[test]
fn wrong_files_agree_with_typed_reading() {
    agree("1,Peter\n");
    agree("1,Peter,45,more\n");
    agree("1,Peter,45\n2,Mary\n");
    agree("x,Peter,45\n");
    agree("1,Peter,x\n");
    agree("1,Peter,256\n");
    agree("1,Peter,-1\n");
    agree("-1,Peter,1\n");
    agree("18446744073709551616,Peter,1\n");
    agree("1,Peter, 45\n");
    agree("1 ,Peter,45\n");
    agree("1,Peter,45\n2,Mary,0x100\n3,Ann,1\n");
    agree("0X10,b,1\n");
    agree("0x,b,1\n");
    agree("1.0,b,1\n");
    agree("1,b,1e1\n");
    agree(",b,1\n");
    agree("1,b,\n");
}

#[test]
fn numeric_fields_agree_with_typed_reading() {
    let pieces = ["", "+", "-", "0", "1", "9", "a", "F", "x", "0x", " ", "25", "6", "_"];
    for a in pieces {
        for b in pieces {
            for c in pieces {
                let field = format!("{}{}{}", a, b, c);
                agree(&format!("{},n,1\n", field));
                agree(&format!("1,n,{}\n", field));
            }
        }
    }
}

#[test]
fn fields_that_are_not_utf8_agree_with_typed_reading() {
    for data in [&b"Id,Name,Age\n1,\xff,2\n"[..], &b"Id,Name,Age\n1,a,2\n\xc3,b,3\n"[..]] {
        assert_eq!(read_vector_of_persons_from_reader(data).ok(), by_place(data));
    }
}
