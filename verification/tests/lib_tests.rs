#[test]
fn it_works() {}
