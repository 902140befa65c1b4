use uic_uper::bytes_to_usize;
use uic_uper::key_db::{Signature, ProductOwnerCode, OwnedQName};
use uic_uper::utlay_painter::{Canvas, Record, row_to_letter};

#[test]
fn test_bytes_to_usize_reads_decimal() {
    assert_eq!(bytes_to_usize(b"0042"), Some(42));
    assert_eq!(bytes_to_usize(b"0"), Some(0));
    assert_eq!(bytes_to_usize(b"16384"), Some(16384));
}

#[test]
fn test_bytes_to_usize_rejects_junk() {
    assert_eq!(bytes_to_usize(b""), None);
    assert_eq!(bytes_to_usize(b"12a4"), None);
    assert_eq!(bytes_to_usize(b" 42"), None);
    assert_eq!(bytes_to_usize(b"99999999999999999999999999"), None);
}

#[test]
fn test_canvas_paint() {
    let mut canvas = Canvas::new();
    assert_eq!(canvas.height(), 0);
    assert_eq!(canvas.width(), 0);
    let record = Record {
        line: 1,
        column: 2,
        width: 10,
        height: 2,
        text: "AB\nC".to_string(),
    };
    canvas.paint_record(&record);
    assert_eq!(canvas.height(), 3);
    assert_eq!(canvas.width(), 4);
    let rows = canvas.as_vec();
    assert_eq!(rows[0], Vec::<char>::new());
    assert_eq!(rows[1], vec![' ', ' ', 'A', 'B']);
    assert_eq!(rows[2], vec![' ', ' ', 'C']);
}

#[test]
fn test_canvas_overpaint() {
    let mut canvas = Canvas::new();
    canvas.paint_record(&Record {
        line: 0,
        column: 0,
        width: 4,
        height: 1,
        text: "XXXX".to_string(),
    });
    canvas.paint_record(&Record {
        line: 0,
        column: 1,
        width: 2,
        height: 1,
        text: "AB".to_string(),
    });
    assert_eq!(canvas.as_vec()[0], vec!['X', 'A', 'B', 'X']);
}

#[test]
fn test_row_to_letter() {
    assert_eq!(row_to_letter(0), 'A');
    assert_eq!(row_to_letter(1), 'B');
    assert_eq!(row_to_letter(25), 'Z');
    assert_eq!(row_to_letter(27), ' ');
}

#[test]
fn test_key_db_values() {
    let qname = OwnedQName::new(Some("ns".to_string()), "keys".to_string());
    assert_eq!(qname.namespace, Some("ns".to_string()));
    assert_eq!(qname.local_name, "keys");
    let owner = ProductOwnerCode { code: 1234, name: "owner".to_string() };
    assert_eq!(owner.code, 1234);
    let signature = Signature::Dsa { r: vec![1, 2], s: vec![3, 4] };
    assert_eq!(signature, Signature::Dsa { r: vec![1, 2], s: vec![3, 4] });
    assert_ne!(signature, Signature::Asn1(vec![1, 2, 3, 4]));
}
