use anyvm::{stdabi, Image, InvokeErr, InvokeResult, Machine, MemoryErr};

fn word(v: i64) -> [u8; 8] {
    v.to_be_bytes()
}

fn make_image(static_section: Vec<u8>, text_section: Vec<u8>) -> Image {
    Image {
        function_table: vec![("main".to_string(), 0i64)],
        static_table: Vec::new(),
        static_section,
        text_section,
    }
}

#[test]
fn abi_call() {
    // a simple abi call written in raw bytecode
    let image = Image {
        function_table: vec![("main".to_string(), 0i64)],
        static_table: Vec::new(),
        static_section: b"\0\0\0\0\0\0\0\0stdabi\0stest\0STDABI TEST\0".to_vec(),
        text_section: vec![
            68, 0, 0, 0, 0, 0, 0, 0, 8, // dock, 8: load the stdabi
            69, 0, 0, 0, 0, 0, 0, 0, 15, // loadfun, 15: load the symbol "stest"
            0, 0, 0, 0, 0, 0, 0, 0, 21, // pushvl, 21
            67, 255, 255, 255, 255, 255, 255, 255, 240, // invokevirtual, -16
            70, // never reached: the host call terminates the invocation
        ],
    };
    let mut machine = Machine::new(1024); // create a 1kb machine
    machine.register(b"stdabi".to_vec(), stdabi());
    machine.mount(&image).unwrap();
    assert_eq!(
        machine.invoke(image.lookup("main".to_string())),
        Ok(InvokeResult::StdabiTestSuccess)
    );
}

#[test]
fn stdabi_wrong_magic() {
    let mut text = Vec::new();
    text.push(68);
    text.extend_from_slice(&word(0));
    text.push(69);
    text.extend_from_slice(&word(7));
    text.push(0);
    text.extend_from_slice(&word(13));
    text.push(67);
    text.extend_from_slice(&word(-16));
    let image = make_image(b"stdabi\0stest\0WRONG\0".to_vec(), text);
    let mut machine = Machine::new(1024);
    machine.register(b"stdabi".to_vec(), stdabi());
    machine.mount(&image).unwrap();
    assert_eq!(
        machine.invoke(image.lookup("main".to_string())),
        Err(InvokeErr::StdabiTestFailure)
    );
}

#[test]
fn empty_program_exits() {
    let mut text = vec![73];
    text.extend_from_slice(&word(0));
    let image = make_image(Vec::new(), text);
    let mut machine = Machine::new(1024);
    machine.mount(&image).unwrap();
    assert_eq!(
        machine.invoke(image.lookup("main".to_string())),
        Ok(InvokeResult::Value(0))
    );
}

#[test]
fn exit_value() {
    let mut text = vec![73];
    text.extend_from_slice(&word(1234));
    let image = make_image(Vec::new(), text);
    let mut machine = Machine::new(1024);
    machine.mount(&image).unwrap();
    assert_eq!(
        machine.invoke(image.lookup("main".to_string())),
        Ok(InvokeResult::Value(1234))
    );
}

#[test]
fn add_then_store() {
    // 3 at offset 0, 4 at offset 8; add[l] 0 8; push[l] 0; popm[l] 16; exit 0
    let mut statics = Vec::new();
    statics.extend_from_slice(&word(3));
    statics.extend_from_slice(&word(4));
    statics.extend_from_slice(&word(0));
    let mut text = vec![28];
    text.extend_from_slice(&word(0));
    text.extend_from_slice(&word(8));
    text.push(4);
    text.extend_from_slice(&word(0));
    text.push(24);
    text.extend_from_slice(&word(16));
    text.push(73);
    text.extend_from_slice(&word(0));
    let image = make_image(statics, text);
    let mut machine = Machine::new(1024);
    machine.mount(&image).unwrap();
    assert_eq!(
        machine.invoke(image.lookup("main".to_string())),
        Ok(InvokeResult::Value(0))
    );
    assert_eq!(machine.read(16, 8), Ok(7));
    assert_eq!(machine.read(0, 8), Ok(7)); // add overwrote its first operand
    assert_eq!(machine.read(8, 8), Ok(4)); // and left the second alone
}

#[test]
fn add_wraps_at_width() {
    // 255 + 2 at byte width wraps to 1
    let mut statics = vec![255, 2];
    statics.resize(8, 0);
    let mut text = vec![31]; // add[b]
    text.extend_from_slice(&word(0));
    text.extend_from_slice(&word(1));
    text.push(73);
    text.extend_from_slice(&word(0));
    let image = make_image(statics, text);
    let mut machine = Machine::new(1024);
    machine.mount(&image).unwrap();
    assert_eq!(
        machine.invoke(image.lookup("main".to_string())),
        Ok(InvokeResult::Value(0))
    );
    assert_eq!(machine.read(0, 1), Ok(1));
}

#[test]
fn branch_on_zero() {
    // pushvb 0; branch 20; exit 1; at 20: exit 0
    let mut text = vec![3, 0];
    text.push(64);
    text.extend_from_slice(&word(20));
    text.push(73);
    text.extend_from_slice(&word(1));
    text.push(73);
    text.extend_from_slice(&word(0));
    let image = make_image(Vec::new(), text);
    let mut machine = Machine::new(1024);
    machine.mount(&image).unwrap();
    assert_eq!(
        machine.invoke(image.lookup("main".to_string())),
        Ok(InvokeResult::Value(0))
    );
}

#[test]
fn branch_on_nonzero_falls_through() {
    let mut text = vec![3, 1];
    text.push(64);
    text.extend_from_slice(&word(20));
    text.push(73);
    text.extend_from_slice(&word(1));
    text.push(73);
    text.extend_from_slice(&word(0));
    let image = make_image(Vec::new(), text);
    let mut machine = Machine::new(1024);
    machine.mount(&image).unwrap();
    assert_eq!(
        machine.invoke(image.lookup("main".to_string())),
        Ok(InvokeResult::Value(1))
    );
}

#[test]
fn uncaught_throw() {
    let text = vec![70, 7];
    let image = make_image(Vec::new(), text);
    let mut machine = Machine::new(1024);
    machine.mount(&image).unwrap();
    assert_eq!(
        machine.invoke(image.lookup("main".to_string())),
        Err(InvokeErr::UncaughtThrow(7))
    );
}

#[test]
fn caught_throw() {
    // setsbm; call f; checkerr h; exit 0; f: throw 9; h: geterr; popm[b] 0; exit 0
    let statics = vec![0u8];
    let mut text = vec![74];
    text.push(65);
    text.extend_from_slice(&word(29));
    text.push(71);
    text.extend_from_slice(&word(31));
    text.push(73);
    text.extend_from_slice(&word(0));
    text.push(70);
    text.push(9);
    text.push(72);
    text.push(27);
    text.extend_from_slice(&word(0));
    text.push(73);
    text.extend_from_slice(&word(0));
    let image = make_image(statics, text);
    let mut machine = Machine::new(1024);
    machine.mount(&image).unwrap();
    assert_eq!(
        machine.invoke(image.lookup("main".to_string())),
        Ok(InvokeResult::Value(0))
    );
    // the handler observed the thrown code
    assert_eq!(machine.read(0, 1), Ok(9));
}

#[test]
fn bad_instruction() {
    let text = vec![99];
    let image = make_image(Vec::new(), text);
    let mut machine = Machine::new(1024);
    machine.mount(&image).unwrap();
    assert_eq!(
        machine.invoke(image.lookup("main".to_string())),
        Err(InvokeErr::BadInstruction)
    );
}

#[test]
fn divide_by_zero() {
    let mut statics = Vec::new();
    statics.extend_from_slice(&word(5));
    statics.extend_from_slice(&word(0));
    let mut text = vec![40];
    text.extend_from_slice(&word(0));
    text.extend_from_slice(&word(8));
    let image = make_image(statics, text);
    let mut machine = Machine::new(1024);
    machine.mount(&image).unwrap();
    assert_eq!(
        machine.invoke(image.lookup("main".to_string())),
        Err(InvokeErr::DivideByZero)
    );
}

#[test]
fn out_of_bounds_read_faults() {
    let mut text = vec![4];
    text.extend_from_slice(&word(2000));
    let image = make_image(Vec::new(), text);
    let mut machine = Machine::new(1024);
    machine.mount(&image).unwrap();
    assert_eq!(
        machine.invoke(image.lookup("main".to_string())),
        Err(InvokeErr::MemErr(MemoryErr::SegmentationFault))
    );
}

#[test]
fn invoke_outside_memory_faults() {
    let mut machine = Machine::new(1024);
    assert_eq!(
        machine.invoke(-1),
        Err(InvokeErr::MemErr(MemoryErr::SegmentationFault))
    );
    assert_eq!(
        machine.invoke(5000),
        Err(InvokeErr::MemErr(MemoryErr::SegmentationFault))
    );
}

#[test]
fn mount_too_large_image() {
    let image = make_image(vec![0u8; 20], Vec::new());
    let mut machine = Machine::new(16);
    assert_eq!(machine.mount(&image), Err(MemoryErr::OutOfMemory));
}

#[test]
fn push_pop_round_trip_all_widths() {
    // pushv at each width, then popm back into the static scratch area
    let statics = vec![0u8; 16];
    let mut text = Vec::new();
    text.push(0); // pushvl
    text.extend_from_slice(&0x0102030405060708i64.to_be_bytes());
    text.push(24); // popml
    text.extend_from_slice(&word(0));
    text.push(1); // pushvi
    text.extend_from_slice(&0xAABBCCDDu32.to_be_bytes());
    text.push(25); // popmi
    text.extend_from_slice(&word(8));
    text.push(2); // pushvs
    text.extend_from_slice(&0xBEEFu16.to_be_bytes());
    text.push(26); // popms
    text.extend_from_slice(&word(12));
    text.push(3); // pushvb
    text.push(0x7F);
    text.push(27); // popmb
    text.extend_from_slice(&word(14));
    text.push(73);
    text.extend_from_slice(&word(0));
    let image = make_image(statics, text);
    let mut machine = Machine::new(1024);
    machine.mount(&image).unwrap();
    assert_eq!(
        machine.invoke(image.lookup("main".to_string())),
        Ok(InvokeResult::Value(0))
    );
    assert_eq!(machine.read(0, 8), Ok(0x0102030405060708));
    assert_eq!(machine.read(8, 4), Ok(0xAABBCCDD));
    assert_eq!(machine.read(12, 2), Ok(0xBEEF));
    assert_eq!(machine.read(14, 1), Ok(0x7F));
}

#[test]
fn swap_exchanges_and_twice_restores() {
    let statics = vec![1u8, 2u8];
    let mut text = vec![11]; // swapb
    text.extend_from_slice(&word(0));
    text.extend_from_slice(&word(1));
    text.push(73);
    text.extend_from_slice(&word(0));
    let image = make_image(statics.clone(), text.clone());
    let mut machine = Machine::new(1024);
    machine.mount(&image).unwrap();
    machine.invoke(image.lookup("main".to_string())).unwrap();
    assert_eq!(machine.read(0, 1), Ok(2));
    assert_eq!(machine.read(1, 1), Ok(1));

    // the same swap twice is a no-op
    let mut text2 = vec![11];
    text2.extend_from_slice(&word(0));
    text2.extend_from_slice(&word(1));
    text2.push(11);
    text2.extend_from_slice(&word(0));
    text2.extend_from_slice(&word(1));
    text2.push(73);
    text2.extend_from_slice(&word(0));
    let image2 = make_image(statics, text2);
    let mut machine2 = Machine::new(1024);
    machine2.mount(&image2).unwrap();
    machine2.invoke(image2.lookup("main".to_string())).unwrap();
    assert_eq!(machine2.read(0, 1), Ok(1));
    assert_eq!(machine2.read(1, 1), Ok(2));
}

#[test]
fn cpy_copies_and_preserves_source() {
    let mut statics = Vec::new();
    statics.extend_from_slice(&word(0x1122334455667788));
    statics.extend_from_slice(&word(0));
    let mut text = vec![12]; // cpyl src dst
    text.extend_from_slice(&word(0));
    text.extend_from_slice(&word(8));
    text.push(73);
    text.extend_from_slice(&word(0));
    let image = make_image(statics, text);
    let mut machine = Machine::new(1024);
    machine.mount(&image).unwrap();
    machine.invoke(image.lookup("main".to_string())).unwrap();
    assert_eq!(machine.read(0, 8), Ok(0x1122334455667788));
    assert_eq!(machine.read(8, 8), Ok(0x1122334455667788));
}

#[test]
fn add_then_sub_restores() {
    let mut statics = Vec::new();
    statics.extend_from_slice(&word(41));
    statics.extend_from_slice(&word(17));
    let mut text = vec![28]; // addl 0 8
    text.extend_from_slice(&word(0));
    text.extend_from_slice(&word(8));
    text.push(32); // subl 0 8
    text.extend_from_slice(&word(0));
    text.extend_from_slice(&word(8));
    text.push(73);
    text.extend_from_slice(&word(0));
    let image = make_image(statics, text);
    let mut machine = Machine::new(1024);
    machine.mount(&image).unwrap();
    machine.invoke(image.lookup("main".to_string())).unwrap();
    assert_eq!(machine.read(0, 8), Ok(41));
    assert_eq!(machine.read(8, 8), Ok(17));
}

#[test]
fn cmp_pushes_ordering_byte() {
    let mut statics = Vec::new();
    statics.extend_from_slice(&word(7));
    statics.extend_from_slice(&word(9));
    statics.extend_from_slice(&word(0));
    let mut text = vec![44]; // cmpl 0 8 -> 2 (first < second)
    text.extend_from_slice(&word(0));
    text.extend_from_slice(&word(8));
    text.push(27); // popmb 16
    text.extend_from_slice(&word(16));
    text.push(73);
    text.extend_from_slice(&word(0));
    let image = make_image(statics, text);
    let mut machine = Machine::new(1024);
    machine.mount(&image).unwrap();
    machine.invoke(image.lookup("main".to_string())).unwrap();
    assert_eq!(machine.read(16, 1), Ok(2));
}

#[test]
fn shift_left_and_right() {
    let mut statics = Vec::new();
    statics.extend_from_slice(&word(1));
    let mut text = vec![58]; // shiftl 0 by -3: left shift to 8
    text.extend_from_slice(&word(0));
    text.push(0xFD);
    text.push(58); // shiftl 0 by 2: right shift to 2
    text.extend_from_slice(&word(0));
    text.push(2);
    text.push(73);
    text.extend_from_slice(&word(0));
    let image = make_image(statics, text);
    let mut machine = Machine::new(1024);
    machine.mount(&image).unwrap();
    machine.invoke(image.lookup("main".to_string())).unwrap();
    assert_eq!(machine.read(0, 8), Ok(2));
}

#[test]
fn endianness_round_trip() {
    // mount a static section and read an L-word back through the stack
    let statics = vec![1u8, 2, 3, 4, 5, 6, 7, 8, 0, 0, 0, 0, 0, 0, 0, 0];
    let mut text = vec![4]; // pushl 0
    text.extend_from_slice(&word(0));
    text.push(24); // popml 8
    text.extend_from_slice(&word(8));
    text.push(73);
    text.extend_from_slice(&word(0));
    let image = make_image(statics, text);
    let mut machine = Machine::new(1024);
    machine.mount(&image).unwrap();
    machine.invoke(image.lookup("main".to_string())).unwrap();
    assert_eq!(machine.read(8, 8), Ok(0x0102030405060708));
}

#[test]
fn lookup_is_static_length_plus_offset() {
    let image = Image {
        function_table: vec![("main".to_string(), 5i64), ("other".to_string(), 11i64)],
        static_table: Vec::new(),
        static_section: vec![0u8; 33],
        text_section: vec![0u8; 20],
    };
    assert_eq!(image.lookup("main".to_string()), 38);
    assert_eq!(image.lookup("other".to_string()), 44);
}

#[test]
fn str_proc_fail_maps_to_string_error() {
    assert_eq!(
        anyvm::error::str_proc_fail("whatever"),
        InvokeErr::StringProcessingError
    );
}

#[test]
fn call_and_ret() {
    // call f; exit 5; f: ret
    let mut text = vec![65];
    text.extend_from_slice(&word(18));
    text.push(73);
    text.extend_from_slice(&word(5));
    text.push(66);
    let image = make_image(Vec::new(), text);
    let mut machine = Machine::new(1024);
    machine.mount(&image).unwrap();
    assert_eq!(
        machine.invoke(image.lookup("main".to_string())),
        Ok(InvokeResult::Value(5))
    );
}

#[test]
fn jmp_skips_forward() {
    // jmp 9 lands past the failing exit
    let mut text = vec![63];
    text.extend_from_slice(&word(9));
    text.push(73);
    text.extend_from_slice(&word(1));
    text.push(73);
    text.extend_from_slice(&word(0));
    let image = make_image(Vec::new(), text);
    let mut machine = Machine::new(1024);
    machine.mount(&image).unwrap();
    assert_eq!(
        machine.invoke(image.lookup("main".to_string())),
        Ok(InvokeResult::Value(0))
    );
}

#[test]
fn cmpv_against_immediate() {
    // the byte at 0 equals the immediate, so 0 is pushed
    let statics = vec![7u8, 0u8];
    let mut text = vec![51]; // cmpvb 0, 7
    text.extend_from_slice(&word(0));
    text.push(7);
    text.push(27); // popmb 1
    text.extend_from_slice(&word(1));
    text.push(73);
    text.extend_from_slice(&word(0));
    let image = make_image(statics, text);
    let mut machine = Machine::new(1024);
    machine.mount(&image).unwrap();
    machine.invoke(image.lookup("main".to_string())).unwrap();
    assert_eq!(machine.read(1, 1), Ok(0));
}

#[test]
fn byte_logic_ops() {
    // bor 0 1; vand 0 6; bnorm 0; bnot 2; not 3
    let statics = vec![0b1100u8, 0b1010u8, 0x0Fu8, 0u8];
    let mut text = vec![54]; // bor 0 1 -> 0b1110
    text.extend_from_slice(&word(0));
    text.extend_from_slice(&word(1));
    text.push(57); // vand 0 0b0110 -> 0b0110
    text.extend_from_slice(&word(0));
    text.push(0b0110);
    text.push(62); // bnorm 0 -> 1
    text.extend_from_slice(&word(0));
    text.push(52); // bnot 2 -> 0xF0
    text.extend_from_slice(&word(2));
    text.push(53); // not 3 -> 1
    text.extend_from_slice(&word(3));
    text.push(73);
    text.extend_from_slice(&word(0));
    let image = make_image(statics, text);
    let mut machine = Machine::new(1024);
    machine.mount(&image).unwrap();
    machine.invoke(image.lookup("main".to_string())).unwrap();
    assert_eq!(machine.read(0, 1), Ok(1));
    assert_eq!(machine.read(2, 1), Ok(0xF0));
    assert_eq!(machine.read(3, 1), Ok(1));
}

#[test]
fn unterminated_name_is_a_string_error() {
    // fill the tail of memory with nonzero bytes, then dock a "name"
    // that never terminates before the end of memory
    let statics = vec![0xFFu8; 8];
    let mut text = vec![16]; // cpyvl 34, 0x0101010101010101
    text.extend_from_slice(&word(34));
    text.extend_from_slice(&0x0101010101010101u64.to_be_bytes());
    text.push(68); // dock 34
    text.extend_from_slice(&word(34));
    let image = make_image(statics, text);
    let mut machine = Machine::new(48); // end = 40
    machine.mount(&image).unwrap();
    assert_eq!(
        machine.invoke(image.lookup("main".to_string())),
        Err(InvokeErr::StringProcessingError)
    );
}

