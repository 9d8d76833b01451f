use kvs::position::{BufReaderWithPos, BufWriterWithPos};

#[test]
fn reader_position_follows_reads_and_seeks() {
    let mut reader = BufReaderWithPos::new();
    assert_eq!(reader.get_pos(), 0);
    reader.read(10);
    reader.read(0);
    reader.read(5);
    assert_eq!(reader.get_pos(), 15);
    assert_eq!(reader.seek(4), 4);
    assert_eq!(reader.get_pos(), 4);
    reader.read(3);
    assert_eq!(reader.get_pos(), 7);
}

#[test]
fn writer_position_follows_writes_and_seeks() {
    let mut writer = BufWriterWithPos::new();
    assert_eq!(writer.get_pos(), 0);
    writer.write(8);
    assert_eq!(writer.get_pos(), 8);
    assert_eq!(writer.seek(100), 100);
    writer.write(1);
    assert_eq!(writer.get_pos(), 101);
}

#[test]
fn writer_tells_where_each_command_lies() {
    let mut writer = BufWriterWithPos::new();
    assert_eq!(writer.write_cmd(17), (0, 17));
    assert_eq!(writer.write_cmd(5), (17, 5));
    assert_eq!(writer.write_cmd(0), (22, 0));
    assert_eq!(writer.get_pos(), 22);
}
