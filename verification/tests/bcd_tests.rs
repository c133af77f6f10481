use stoken::{bcd2, bcd4};

#[test]
fn wiki() {
    assert_eq!(bcd2(91), 0b1001_0001);
    assert_eq!(bcd2(01), 0b0000_0001);
    assert_eq!(bcd2(23), 0b0010_0011);
    assert_eq!(bcd2(45), 0b0100_0101);
    assert_eq!(bcd2(67), 0b0110_0111);
    assert_eq!(bcd2(89), 0b1000_1001);

    let bcd9876 = bcd4(9876);
    assert_eq!(
        bcd9876,
        (0b1001_1000, 0b0111_0110),
        "9876 should was {:#b}, {:#b}",
        bcd9876.0,
        bcd9876.1
    );

    let bcd2019 = bcd4(2019);
    assert_eq!(
        bcd2019,
        (0b0010_0000, 0b0001_1001),
        "2019 should was {:#b}, {:#b}",
        bcd2019.0,
        bcd2019.1
    );

    assert_eq!(bcd4(2019), (32, 25));
    assert_eq!(bcd2(1), 1);
    assert_eq!(bcd2(13), 19);
    assert_eq!(bcd2(5), 5);
    assert_eq!(bcd2(31), 49);
}

#[test]
fn generate_wiki() {
    assert_eq!(bcd2(91), 0b1001_0001);
    assert_eq!(bcd2(01), 0b0000_0001);
    assert_eq!(bcd2(23), 0b0010_0011);
    assert_eq!(bcd2(45), 0b0100_0101);
    assert_eq!(bcd2(67), 0b0110_0111);
    assert_eq!(bcd2(89), 0b1000_1001);

    let bcd9876 = bcd4(9876);
    assert_eq!(
        bcd9876,
        (0b1001_1000, 0b0111_0110),
        "9876 should was {:#b}, {:#b}",
        bcd9876.0,
        bcd9876.1
    );

    let bcd2019 = bcd4(2019);
    assert_eq!(
        bcd2019,
        (0b0010_0000, 0b0001_1001),
        "2019 should was {:#b}, {:#b}",
        bcd2019.0,
        bcd2019.1
    );

    assert_eq!(bcd4(2019), (32, 25));
    assert_eq!(bcd2(1), 1);
    assert_eq!(bcd2(13), 19);
    assert_eq!(bcd2(5), 5);
    assert_eq!(bcd2(31), 49);
}
