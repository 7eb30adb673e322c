use mainstage_core::disasm::{decode, render_listing, render_op, ParsedOp};
use mainstage_core::ir::irop::Value;
use mainstage_core::listing::{value_text, float_bits, listing_floats, listing_text};

fn header(count: u32) -> Vec<u8> {
    let mut b = b"MSBC".to_vec();
    b.extend_from_slice(&1u32.to_le_bytes());
    b.extend_from_slice(&count.to_le_bytes());
    b
}

fn u32s(b: &mut Vec<u8>, xs: &[u32]) {
    for x in xs { b.extend_from_slice(&x.to_le_bytes()); }
}

#[test]
fn decodes_and_renders_a_small_program() {
    let mut b = header(5);
    b.push(0x40); u32s(&mut b, &[4]); b.extend_from_slice(b"loop");
    b.push(0x01); u32s(&mut b, &[0]); b.push(0x01); b.extend_from_slice(&(-3i64 as u64).to_le_bytes());
    b.push(0x10); u32s(&mut b, &[1, 0, 0]);
    b.push(0x42); u32s(&mut b, &[1, 0]);
    b.push(0x71); u32s(&mut b, &[2, 0, 2, 1, 0]);
    let d = decode(&b).unwrap();
    assert_eq!(d.magic, b"MSBC".to_vec());
    assert_eq!(d.version, 1);
    assert_eq!(d.ops.len(), 5);
    assert!(matches!(&d.ops[1], ParsedOp::LConst { dest: 0, val: Value::Int(-3) }));
    let texts = vec![String::new(), "Int(-3)".to_string(), String::new(), String::new(), String::new()];
    let out = render_listing("MSBC", &d, &texts);
    assert_eq!(out, "Magic: MSBC\nVersion: 1\nOp count: 5\n\n\
0000  Label loop\n\
0001  LConst r0 <- Int(-3)\n\
0002  Add r1 <- r0 , r0\n\
0003  BrTrue r1 -> loop\n\
0004  CallLabel r2 <- loop(r1, r0)\n");
}

#[test]
fn renders_numeric_targets_without_labels() {
    let mut b = header(3);
    b.push(0x41); u32s(&mut b, &[7]);
    b.push(0x70); u32s(&mut b, &[1, 2, 0]);
    b.push(0x71); u32s(&mut b, &[0, 9, 1, 5]);
    let d = decode(&b).unwrap();
    assert_eq!(render_op(0, &d.ops, ""), "0000  Jump 7\n");
    assert_eq!(render_op(1, &d.ops, ""), "0001  Call r1 <- r2()\n");
    assert_eq!(render_op(2, &d.ops, ""), "0002  CallLabel r0 <- L9(r5)\n");
}

#[test]
fn renders_every_simple_opcode() {
    let mut b = header(12);
    b.push(0x02); u32s(&mut b, &[1, 2]);
    b.push(0x03); u32s(&mut b, &[3, 4]);
    b.push(0x27); u32s(&mut b, &[1, 2, 3]);
    b.push(0x28); u32s(&mut b, &[5, 6]);
    b.push(0x30); u32s(&mut b, &[7]);
    b.push(0x31); u32s(&mut b, &[8]);
    b.push(0x43); u32s(&mut b, &[1, 99]);
    b.push(0x50);
    b.push(0x60); u32s(&mut b, &[2]);
    b.push(0x61); u32s(&mut b, &[1, 2, 3]);
    b.push(0x62); u32s(&mut b, &[4, 5, 6]);
    b.push(0x80); u32s(&mut b, &[12345]);
    let d = decode(&b).unwrap();
    let lines: Vec<String> = (0..12).map(|i| render_op(i, &d.ops, "")).collect();
    assert_eq!(lines, vec![
        "0000  LLocal r1 <- local[2]\n", "0001  SLocal local[4] <- r3\n", "0002  Or r1 <- r2 , r3\n",
        "0003  Not r5 <- !r6\n", "0004  Inc r7 ++\n", "0005  Dec r8 --\n", "0006  BrFalse r1 -> 99\n",
        "0007  Halt\n", "0008  AllocClosure r2\n", "0009  CStore clo[r1].2 <- r3\n",
        "0010  CLoad r4 <- clo[r5].6\n", "0011  Ret r12345\n",
    ]);
}

#[test]
fn decodes_every_value_kind() {
    let mut b = header(1);
    b.push(0x01); u32s(&mut b, &[0]);
    b.push(0x06); u32s(&mut b, &[6]);
    b.push(0x02); b.extend_from_slice(&1.5f64.to_bits().to_le_bytes());
    b.push(0x03); b.push(2);
    b.push(0x04); u32s(&mut b, &[2]); b.extend_from_slice("hé".as_bytes()[..2].as_ref());
    b.push(0x05); u32s(&mut b, &[1]); b.extend_from_slice(b"s");
    b.push(0x07);
    b.push(0x06); u32s(&mut b, &[0]);
    let d = decode(&b);
    // "hé"[..2] is "h" plus half of 'é': not UTF-8
    let e = d.err().unwrap();
    assert!(e.starts_with("invalid utf8: "), "{}", e);

    let mut b = header(1);
    b.push(0x01); u32s(&mut b, &[0]);
    b.push(0x06); u32s(&mut b, &[5]);
    b.push(0x02); b.extend_from_slice(&1.5f64.to_bits().to_le_bytes());
    b.push(0x03); b.push(2);
    b.push(0x04); u32s(&mut b, &[3]); b.extend_from_slice("hé".as_bytes());
    b.push(0x05); u32s(&mut b, &[1]); b.extend_from_slice(b"s");
    b.push(0x07);
    let d = decode(&b).unwrap();
    match &d.ops[0] {
        ParsedOp::LConst { val: Value::Array(items), .. } => {
            assert_eq!(items.len(), 5);
            assert!(matches!(items[0], Value::Float(x) if x == 1.5f64.to_bits()));
            assert!(matches!(items[1], Value::Bool(true)));
            assert!(matches!(&items[2], Value::Str(s) if s == "hé"));
            assert!(matches!(&items[3], Value::Symbol(s) if s == "s"));
            assert!(matches!(items[4], Value::Null));
        },
        other => panic!("{:?}", other),
    }
}

#[test]
fn reports_each_decoding_error() {
    assert_eq!(decode(b"MS").err().unwrap(), "missing header: failed to fill whole buffer");
    assert_eq!(decode(b"MSBC\x01\x00").err().unwrap(), "unexpected eof: failed to fill whole buffer");
    let mut b = header(1); b.push(0xff);
    assert_eq!(decode(&b).err().unwrap(), "unknown opcode 0xff at op 0");
    let mut b = header(2); b.push(0x50); b.push(0x0a);
    assert_eq!(decode(&b).err().unwrap(), "unknown opcode 0x0a at op 1");
    let mut b = header(1); b.push(0x01); u32s(&mut b, &[0]); b.push(0x09);
    assert_eq!(decode(&b).err().unwrap(), "unknown value tag 0x09");
    let mut b = header(1); b.push(0x01); u32s(&mut b, &[0]);
    assert_eq!(decode(&b).err().unwrap(), "eof reading value tag: failed to fill whole buffer");
    let mut b = header(1); b.push(0x01); u32s(&mut b, &[0]); b.push(0x01); b.push(0);
    assert_eq!(decode(&b).err().unwrap(), "eof int: failed to fill whole buffer");
    let mut b = header(1); b.push(0x01); u32s(&mut b, &[0]); b.push(0x02);
    assert_eq!(decode(&b).err().unwrap(), "eof float: failed to fill whole buffer");
    let mut b = header(1); b.push(0x01); u32s(&mut b, &[0]); b.push(0x03);
    assert_eq!(decode(&b).err().unwrap(), "eof bool: failed to fill whole buffer");
    let mut b = header(1); b.push(0x40); u32s(&mut b, &[9]); b.extend_from_slice(b"ab");
    assert_eq!(decode(&b).err().unwrap(), "unexpected eof reading string: failed to fill whole buffer");
    let mut b = header(1); b.push(0x70); u32s(&mut b, &[0, 0, 3, 1]);
    assert_eq!(decode(&b).err().unwrap(), "unexpected eof: failed to fill whole buffer");
}

#[test]
fn empty_program_renders_header_only() {
    let d = decode(&header(0)).unwrap();
    assert_eq!(render_listing("MSBC", &d, &vec![]), "Magic: MSBC\nVersion: 1\nOp count: 0\n\n");
}

#[test]
fn writes_constants_and_the_whole_listing() {
    let floats = vec![(1.5f64.to_bits(), "1.5".to_string())];
    let v = Value::Array(vec![Value::Int(-2), Value::Bool(true), Value::Str("a".to_string()),
        Value::Symbol("s".to_string()), Value::Float(1.5f64.to_bits()), Value::Null, Value::Array(vec![])]);
    assert_eq!(value_text(&v, &floats), "Array([Int(-2), Bool(true), Str(\"a\"), Symbol(s), Float(1.5), Null, Array([])])");
    assert_eq!(float_bits(&v), vec![1.5f64.to_bits()]);
    let mut b = header(1);
    b.push(0x01); u32s(&mut b, &[0]); b.push(0x01); b.extend_from_slice(&(-3i64 as u64).to_le_bytes());
    let d = decode(&b).unwrap();
    assert!(listing_floats(&d).is_empty());
    assert_eq!(listing_text(&d, &vec![]), "Magic: MSBC\nVersion: 1\nOp count: 1\n\n0000  LConst r0 <- Int(-3)\n");
}
