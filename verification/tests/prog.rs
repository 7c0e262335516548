use assembler::prog::Prog;

#[test]
fn prog_new_test() {
    let tests = [
        ("add r1,r2,r3", "00000000\n00000000\t60443000\n"),
        (
            "add r1,r2,r3\n add r1,r2,r3",
            "00000000\n00000000\t60443000\n00000004\t60443000\n",
        ),
        ("LABEL: addi r1,r2,LABEL", "00000000\n00000000\t68440000\n"),
    ];
    for test in &tests {
        let result = Prog::new("file", test.0).unwrap().encode().unwrap();

        assert_eq!(result, test.1);
    }
}
