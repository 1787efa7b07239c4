use address_space::aml_compiler::{
    build_name_seg, build_name_string, build_pkg_length, AmlAdd, AmlAddressSpaceType, AmlAnd,
    AmlArg, AmlBuffer, AmlBuilder, AmlByte, AmlCall, AmlConcat, AmlDWord, AmlDeRefOf, AmlDecrement,
    AmlDevice, AmlEisaId, AmlElse, AmlEqual, AmlField, AmlFieldAccessType, AmlFieldLockRule,
    AmlFieldUnit, AmlFieldUpdateRule, AmlIf, AmlIncrement, AmlIndex, AmlInteger, AmlLAnd,
    AmlLGreater, AmlLLess, AmlLNot, AmlLOr, AmlLocal, AmlMethod, AmlName, AmlNameDecl, AmlNotify,
    AmlOne, AmlOnes, AmlOpRegion, AmlOr, AmlPackage, AmlQWord, AmlReturn, AmlScope,
    AmlScopeBuilder, AmlShiftLeft, AmlShiftRight, AmlSizeOf, AmlStore, AmlString, AmlSubtract,
    AmlToUuid, AmlVarPackage, AmlWhile, AmlWord, AmlZero,
};

#[test]
fn test_uuid() {
    let uuid = AmlToUuid::new("33DB4D5B-1FF7-401C-9657-7441C03DD766");

    assert_eq!(
        uuid.aml_bytes(),
        &[
            0x5B, 0x4D, 0xDB, 0x33, 0xF7, 0x1F, 0x1C, 0x40, 0x96, 0x57, 0x74, 0x41, 0xC0, 0x3D,
            0xD7, 0x66
        ]
    );
}
#[test]
fn test_package() {
    // Name (PKG1, Package(3){0x1234, "Hello world", INT1})
    let mut pkg1 = AmlPackage::new(3);
    pkg1.append_child(AmlInteger(0x1234));
    pkg1.append_child(AmlString("Hello world".to_string()));
    pkg1.append_child(AmlName("INT1".to_string()));
    let named_pkg1 = AmlNameDecl::new("PKG1", pkg1);

    let pkg1_bytes = vec![
        0x08, 0x50, 0x4B, 0x47, 0x31, 0x12, 0x16, 0x03, 0x0B, 0x34, 0x12, 0x0D, 0x48, 0x65,
        0x6C, 0x6C, 0x6F, 0x20, 0x77, 0x6F, 0x72, 0x6C, 0x64, 0x00, 0x49, 0x4E, 0x54, 0x31,
    ];
    assert_eq!(named_pkg1.aml_bytes(), pkg1_bytes);

    // Name (PKG2, Package(){INT1, "Good bye"})
    let mut pkg2 = AmlPackage::new(2);
    pkg2.append_child(AmlName("INT1".to_string()));
    pkg2.append_child(AmlString("Good bye".to_string()));
    let named_pkg2 = AmlNameDecl::new("PKG2", pkg2);

    let pkg2_bytes = vec![
        0x08, 0x50, 0x4B, 0x47, 0x32, 0x12, 0x10, 0x02, 0x49, 0x4E, 0x54, 0x31, 0x0D, 0x47,
        0x6F, 0x6F, 0x64, 0x20, 0x62, 0x79, 0x65, 0x00,
    ];
    assert_eq!(named_pkg2.aml_bytes(), pkg2_bytes);

    // Name (PKG3, Package(){
    //     "ASL is fun",
    //     Package() {0xff, 0xfe, 0xfd},
    //     Buffer() {0x01, 0x02}
    // })
    let mut pkg3 = AmlPackage::new(3);
    pkg3.append_child(AmlString("ASL is fun".to_string()));

    let mut pkg32 = AmlPackage::new(3);
    pkg32.append_child(AmlInteger(0xff));
    pkg32.append_child(AmlInteger(0xfe));
    pkg32.append_child(AmlInteger(0xfd));
    pkg3.append_child(pkg32);

    let buffer = AmlBuffer(vec![0x01, 0x02]);
    pkg3.append_child(buffer);
    let named_pkg3 = AmlNameDecl::new("PKG3", pkg3);

    let pkg3_bytes = vec![
        0x08, 0x50, 0x4B, 0x47, 0x33, 0x12, 0x1D, 0x03, 0x0D, 0x41, 0x53, 0x4C, 0x20, 0x69,
        0x73, 0x20, 0x66, 0x75, 0x6E, 0x00, 0x12, 0x08, 0x03, 0x0A, 0xFF, 0x0A, 0xFE, 0x0A,
        0xFD, 0x11, 0x05, 0x0A, 0x02, 0x01, 0x02,
    ];
    assert_eq!(named_pkg3.aml_bytes(), pkg3_bytes);
}

#[test]
fn test_op_region() {
    // OperationRegion(OPR1, SystemMemory, 0x10000, 0x5)
    // Field (OPR1, ByteAcc, NoLock, WriteAsZeros)
    // {
    //     FLD1, 8,
    //     FLD2, 8,
    //     Offset (3), //Start the next field unit at byte offset 3
    //     FLD3, 4,
    //     FLD4, 12,
    // }
    let op_region = AmlOpRegion::new("OPR1", AmlAddressSpaceType::SystemMemory, 0x10000, 0x5);
    let target = vec![
        0x5B, 0x80, 0x4F, 0x50, 0x52, 0x31, 0x00, 0x0C, 0x00, 0x00, 0x01, 0x00, 0x0A, 0x05,
    ];
    assert_eq!(op_region.aml_bytes(), target);

    let mut field = AmlField::new(
        "OPR1",
        AmlFieldAccessType::Byte,
        AmlFieldLockRule::NoLock,
        AmlFieldUpdateRule::WriteAsZeros,
    );

    let elem1 = AmlFieldUnit::new(Some("FLD1"), 8);
    let elem2 = AmlFieldUnit::new(Some("FLD2"), 8);
    let elem3 = AmlFieldUnit::new(None, 8);
    let elem4 = AmlFieldUnit::new(Some("FLD3"), 4);
    let elem5 = AmlFieldUnit::new(Some("FLD4"), 12);

    for e in vec![elem1, elem2, elem3, elem4, elem5] {
        field.append_child(e);
    }

    let target = vec![
        0x5B, 0x81, 0x1C, 0x4F, 0x50, 0x52, 0x31, 0x41, 0x46, 0x4C, 0x44, 0x31, 0x08, 0x46,
        0x4C, 0x44, 0x32, 0x08, 0x00, 0x08, 0x46, 0x4C, 0x44, 0x33, 0x04, 0x46, 0x4C, 0x44,
        0x34, 0x0C,
    ];
    assert_eq!(field.aml_bytes(), target);
}

#[test]
fn test_device() {
    // Device (PCI0)
    // {
    //     Name (_HID, EisaId ("PNP0A03"))
    // }
    let mut device = AmlDevice::new("PCI0");
    let hid = AmlNameDecl::new("_HID", AmlEisaId::new("PNP0A03"));
    device.append_child(hid);

    let bytes = device.aml_bytes();
    let target = vec![
        0x5B, 0x82, 0x0F, 0x50, 0x43, 0x49, 0x30, 0x08, 0x5F, 0x48, 0x49, 0x44, 0x0C, 0x41,
        0xD0, 0x0A, 0x03,
    ];
    assert_eq!(bytes, target);
}

#[test]
fn test_scope() {
    // Scope (_SB) {
    //     Name (INT1, 0xABCD)
    // }
    let mut scope = AmlScope::new("_SB");
    scope.append_child(AmlNameDecl::new("INT1", AmlInteger(0xABCD)));

    let target = vec![
        0x10, 0x0D, 0x5F, 0x53, 0x42, 0x5F, 0x08, 0x49, 0x4E, 0x54, 0x31, 0x0B, 0xCD, 0xAB,
    ];

    assert_eq!(scope.aml_bytes(), target);
}

#[test]
fn test_method() {
    // Scope(\_SB.PCI4) {
    //     OperationRegion(LED1, SystemIO, 0x10C0, 0x20)
    //     Field(LED1, AnyAcc, NoLock, Preserve)
    //     { // LED controls
    //         S0LE, 1, // Slot 0 Ejection Progress LED
    //         S0LF, 1, // Slot 0 Ejection Failure LED
    //         S1LE, 1, // Slot 1 Ejection Progress LED
    //         S1LF, 1, // Slot 1 Ejection Failure LED
    //         S2LE, 1, // Slot 2 Ejection Progress LED
    //         S2LF, 1, // Slot 2 Ejection Failure LED
    //         S3LE, 1, // Slot 3 Ejection Progress LED
    //         S3LF, 1 // Slot 3 Ejection Failure LED
    //     }
    //     Device(SLT3) { // hot plug device
    //         Name(_ADR, 0x000C0003)
    //         Method(_OST, 3, Serialized) {
    //             If(LEqual(Arg0,Ones)) // Unspecified event
    //             {
    //                 Store(Zero, Arg1)
    //             }
    //             Store(Zero, Arg2) // Turn off Ejection Progress LED
    //             Store(One, Arg0) // Turn on Ejection Failure LED
    //         }
    //     }
    // }
    let mut scope1 = AmlScope::new("\\_SB.PCI4");

    let op_region = AmlOpRegion::new("LED1", AmlAddressSpaceType::SystemIO, 0x10C0, 0x20);
    let mut field = AmlField::new(
        "LED1",
        AmlFieldAccessType::Any,
        AmlFieldLockRule::NoLock,
        AmlFieldUpdateRule::Preserve,
    );
    let mut elems = Vec::new();
    elems.push(AmlFieldUnit::new(Some("S0LE"), 1));
    elems.push(AmlFieldUnit::new(Some("S0LF"), 1));
    elems.push(AmlFieldUnit::new(Some("S1LE"), 1));
    elems.push(AmlFieldUnit::new(Some("S1LF"), 1));
    elems.push(AmlFieldUnit::new(Some("S2LE"), 1));
    elems.push(AmlFieldUnit::new(Some("S2LF"), 1));
    elems.push(AmlFieldUnit::new(Some("S3LE"), 1));
    elems.push(AmlFieldUnit::new(Some("S3LF"), 1));
    for e in elems {
        field.append_child(e);
    }

    let mut device = AmlDevice::new("SLT3");

    let name1 = AmlNameDecl::new("_ADR", AmlInteger(0x000C0003));

    let mut method1 = AmlMethod::new("_OST", 3, true);
    let mut if_scope = AmlIf::new(AmlEqual::new(AmlArg(0), AmlOnes));
    let store1 = AmlStore::new(AmlZero, AmlArg(1));
    if_scope.append_child(store1);
    let store2 = AmlStore::new(AmlZero, AmlArg(2));
    let store3 = AmlStore::new(AmlOne, AmlArg(0));
    method1.append_child(if_scope);
    method1.append_child(store2);
    method1.append_child(store3);

    device.append_child(name1);
    device.append_child(method1);
    scope1.append_child(op_region);
    scope1.append_child(field);
    scope1.append_child(device);

    let scope1_bytes = vec![
        0x10, 0x4E, 0x06, 0x5C, 0x2E, 0x5F, 0x53, 0x42, 0x5F, 0x50, 0x43, 0x49, 0x34, 0x5B,
        0x80, 0x4C, 0x45, 0x44, 0x31, 0x01, 0x0B, 0xC0, 0x10, 0x0A, 0x20, 0x5B, 0x81, 0x2E,
        0x4C, 0x45, 0x44, 0x31, 0x00, 0x53, 0x30, 0x4C, 0x45, 0x01, 0x53, 0x30, 0x4C, 0x46,
        0x01, 0x53, 0x31, 0x4C, 0x45, 0x01, 0x53, 0x31, 0x4C, 0x46, 0x01, 0x53, 0x32, 0x4C,
        0x45, 0x01, 0x53, 0x32, 0x4C, 0x46, 0x01, 0x53, 0x33, 0x4C, 0x45, 0x01, 0x53, 0x33,
        0x4C, 0x46, 0x01, 0x5B, 0x82, 0x24, 0x53, 0x4C, 0x54, 0x33, 0x08, 0x5F, 0x41, 0x44,
        0x52, 0x0C, 0x03, 0x00, 0x0C, 0x00, 0x14, 0x14, 0x5F, 0x4F, 0x53, 0x54, 0x0B, 0xA0,
        0x07, 0x93, 0x68, 0xFF, 0x70, 0x00, 0x69, 0x70, 0x00, 0x6A, 0x70, 0x01, 0x68,
    ];
    assert_eq!(scope1.aml_bytes(), scope1_bytes);

    // Scope (\_GPE)
    // {
    //     Method(_E13)
    //     {
    //         Store(One, \_SB.PCI4.S3LE) // Turn on ejection request LED
    //         Notify(\_SB.PCI4.SLT3, 3) // Ejection request driven from GPE13
    //     }
    // }
    let mut scope2 = AmlScope::new("\\_GPE");
    let mut method2 = AmlMethod::new("_E13", 0, false);
    let store4 = AmlStore::new(AmlOne, AmlName("\\_SB.PCI4.S3LE".to_string()));
    let notify = AmlNotify::new(AmlName("\\_SB.PCI4.SLT3".to_string()), AmlInteger(3));
    method2.append_child(store4);
    method2.append_child(notify);
    scope2.append_child(method2);

    let scope2_bytes = vec![
        0x10, 0x30, 0x5C, 0x5F, 0x47, 0x50, 0x45, 0x14, 0x29, 0x5F, 0x45, 0x31, 0x33, 0x00,
        0x70, 0x01, 0x5C, 0x2F, 0x03, 0x5F, 0x53, 0x42, 0x5F, 0x50, 0x43, 0x49, 0x34, 0x53,
        0x33, 0x4C, 0x45, 0x86, 0x5C, 0x2F, 0x03, 0x5F, 0x53, 0x42, 0x5F, 0x50, 0x43, 0x49,
        0x34, 0x53, 0x4C, 0x54, 0x33, 0x0A, 0x03,
    ];
    assert_eq!(scope2.aml_bytes(), scope2_bytes);
}

#[test]
fn test_arithmetic_ops() {
    // Method(INCR, 3) {
    //     If (Arg1 == Arg2) {
    //         Return
    //     }
    //     Local0 = Arg0
    //     While (Local0 < Arg1) {
    //         Local0++;
    //     }
    //     Local0--;
    //     Local0 += 2;
    //     If (Local0 > Arg2) {
    //         Local0 -= Arg2;
    //     }
    // }
    let mut method1 = AmlMethod::new("INCR", 3, false);
    let mut if_scope1 = AmlIf::new(AmlEqual::new(AmlArg(1), AmlArg(2)));
    if_scope1.append_child(AmlReturn::new());
    method1.append_child(if_scope1);

    let store1 = AmlStore::new(AmlArg(0), AmlLocal(0).clone());
    method1.append_child(store1);

    let mut while_scope = AmlWhile::new(AmlLLess::new(AmlLocal(0), AmlArg(1)));
    while_scope.append_child(AmlIncrement::new(AmlLocal(0)));
    method1.append_child(while_scope);

    method1.append_child(AmlDecrement::new(AmlLocal(0)));
    method1.append_child(AmlAdd::new(AmlLocal(0), AmlInteger(2), AmlLocal(0)));

    let mut if_scope2 = AmlIf::new(AmlLGreater::new(AmlLocal(0), AmlArg(2)));
    if_scope2.append_child(AmlSubtract::new(AmlLocal(0), AmlArg(2), AmlLocal(0)));
    method1.append_child(if_scope2);

    let method1_bytes = vec![
        0x14, 0x27, 0x49, 0x4E, 0x43, 0x52, 0x03, 0xA0, 0x06, 0x93, 0x69, 0x6A, 0xA4, 0x00,
        0x70, 0x68, 0x60, 0xA2, 0x06, 0x95, 0x60, 0x69, 0x75, 0x60, 0x76, 0x60, 0x72, 0x60,
        0x0A, 0x02, 0x60, 0xA0, 0x08, 0x94, 0x60, 0x6A, 0x74, 0x60, 0x6A, 0x60,
    ];
    assert_eq!(method1.aml_bytes(), method1_bytes);

    // Method(MTD2, 1) {
    //     Local0 = SizeOf(Arg0)
    //     Name (PKG1, Package () {
    //         0x01, 0x03F8, 0x03FF
    //     })
    //
    //     Name (PKG2, Package(2){0x1234, "Hello world"})
    //
    //     Store (DeRefOf (Index (PKG1, 5)), Local0)
    //     Concatenate(PKG1, PKG2, Local1)
    //
    //     Return(Local0)
    // }
    let mut method2 = AmlMethod::new("MTD2", 1, false);

    let store2 = AmlStore::new(AmlSizeOf::new(AmlArg(0)), AmlLocal(0));
    method2.append_child(store2);

    let mut pkg1 = AmlPackage::new(3);
    vec![0x01, 0x03F8, 0x03FF].iter().for_each(|&x| {
        pkg1.append_child(AmlInteger(x as u64));
    });
    let named_pkg1 = AmlNameDecl::new("PKG1", pkg1);
    method2.append_child(named_pkg1);

    let mut pkg2 = AmlPackage::new(2);
    pkg2.append_child(AmlInteger(0x1234));
    pkg2.append_child(AmlString("Hello world".to_string()));
    let named_pkg2 = AmlNameDecl::new("PKG2", pkg2);
    method2.append_child(named_pkg2);

    let pkg1_str = AmlName("PKG1".to_string());
    let pkg2_str = AmlName("PKG2".to_string());
    let store3 = AmlStore::new(
        AmlDeRefOf::new(AmlIndex::new(pkg1_str.clone(), AmlInteger(5), AmlZero)),
        AmlLocal(0),
    );
    let concat = AmlConcat::new(pkg1_str, pkg2_str, AmlLocal(1));
    method2.append_child(store3);
    method2.append_child(concat);

    let return_value = AmlReturn::with_value(AmlLocal(0));
    method2.append_child(return_value);

    let method2_bytes = vec![
        0x14, 0x49, 0x04, 0x4D, 0x54, 0x44, 0x32, 0x01, 0x70, 0x87, 0x68, 0x60, 0x08, 0x50,
        0x4B, 0x47, 0x31, 0x12, 0x09, 0x03, 0x01, 0x0B, 0xF8, 0x03, 0x0B, 0xFF, 0x03, 0x08,
        0x50, 0x4B, 0x47, 0x32, 0x12, 0x12, 0x02, 0x0B, 0x34, 0x12, 0x0D, 0x48, 0x65, 0x6C,
        0x6C, 0x6F, 0x20, 0x77, 0x6F, 0x72, 0x6C, 0x64, 0x00, 0x70, 0x83, 0x88, 0x50, 0x4B,
        0x47, 0x31, 0x0A, 0x05, 0x00, 0x60, 0x73, 0x50, 0x4B, 0x47, 0x31, 0x50, 0x4B, 0x47,
        0x32, 0x61, 0xA4, 0x60,
    ];
    assert_eq!(method2.aml_bytes(), method2_bytes);
}

#[test]
fn test_logical_ops() {
    // Method(MTD3, 1) {
    //     Local0 = Arg0
    //
    //     Local1 = (Local0 << 3) | 0xFF
    //     Local2 = (Local0 >> 3) & 0xFF
    //
    //     If (Local1 && Local2) {
    //         Return(2)
    //     }
    //
    //     if (Local1 || Local2) {
    //         Return(1)
    //     }
    //
    //     Return(0)
    // }
    let mut method = AmlMethod::new("MTD3", 1, false);

    let store1 = AmlStore::new(AmlArg(0), AmlLocal(0));
    method.append_child(store1);

    let shift_left = AmlShiftLeft::new(AmlLocal(0), AmlInteger(0x3), AmlZero);
    let store2 = AmlOr::new(shift_left, AmlInteger(0xFF), AmlLocal(1));
    method.append_child(store2);

    let shift_right = AmlShiftRight::new(AmlLocal(0), AmlInteger(0x3), AmlZero);
    let store3 = AmlAnd::new(shift_right, AmlInteger(0xFF), AmlLocal(2));
    method.append_child(store3);

    let mut if_scope1 = AmlIf::new(AmlLAnd::new(AmlLocal(1), AmlLocal(2)));
    if_scope1.append_child(AmlReturn::with_value(AmlInteger(2)));
    method.append_child(if_scope1);

    let mut if_scope2 = AmlIf::new(AmlLOr::new(AmlLocal(1), AmlLocal(2)));
    if_scope2.append_child(AmlReturn::with_value(AmlInteger(1)));
    method.append_child(if_scope2);

    method.append_child(AmlReturn::with_value(AmlInteger(0)));

    let method_bytes = vec![
        0x14, 0x2C, 0x4D, 0x54, 0x44, 0x33, 0x01, 0x70, 0x68, 0x60, 0x7D, 0x79, 0x60, 0x0A,
        0x03, 0x00, 0x0A, 0xFF, 0x61, 0x7B, 0x7A, 0x60, 0x0A, 0x03, 0x00, 0x0A, 0xFF, 0x62,
        0xA0, 0x07, 0x90, 0x61, 0x62, 0xA4, 0x0A, 0x02, 0xA0, 0x06, 0x91, 0x61, 0x62, 0xA4,
        0x01, 0xA4, 0x00,
    ];
    assert_eq!(method.aml_bytes(), method_bytes);
}

#[test]
fn test_integers() {
    assert_eq!(AmlZero.aml_bytes(), vec![0x00]);
    assert_eq!(AmlOne.aml_bytes(), vec![0x01]);
    assert_eq!(AmlOnes.aml_bytes(), vec![0xFF]);
    assert_eq!(AmlByte(0x12).aml_bytes(), vec![0x0A, 0x12]);
    assert_eq!(AmlWord(0x1234).aml_bytes(), vec![0x0B, 0x34, 0x12]);
    assert_eq!(AmlDWord(0x1234_5678).aml_bytes(), vec![0x0C, 0x78, 0x56, 0x34, 0x12]);
    assert_eq!(
        AmlQWord(0x0102_0304_0506_0708).aml_bytes(),
        vec![0x0E, 0x08, 0x07, 0x06, 0x05, 0x04, 0x03, 0x02, 0x01]
    );
    assert_eq!(AmlInteger(0).aml_bytes(), vec![0x00]);
    assert_eq!(AmlInteger(1).aml_bytes(), vec![0x01]);
    assert_eq!(AmlInteger(2).aml_bytes(), vec![0x0A, 0x02]);
    assert_eq!(AmlInteger(0xFF).aml_bytes(), vec![0x0A, 0xFF]);
    assert_eq!(AmlInteger(0x100).aml_bytes(), vec![0x0B, 0x00, 0x01]);
    assert_eq!(AmlInteger(0xFFFF).aml_bytes(), vec![0x0B, 0xFF, 0xFF]);
    assert_eq!(AmlInteger(0x1_0000).aml_bytes(), vec![0x0C, 0x00, 0x00, 0x01, 0x00]);
    assert_eq!(AmlInteger(0xFFFF_FFFF).aml_bytes(), vec![0x0C, 0xFF, 0xFF, 0xFF, 0xFF]);
    assert_eq!(
        AmlInteger(0x1_0000_0000).aml_bytes(),
        vec![0x0E, 0x00, 0x00, 0x00, 0x00, 0x01, 0x00, 0x00, 0x00]
    );
}

#[test]
fn test_name_segments() {
    assert_eq!(build_name_seg(b""), b"____".to_vec());
    assert_eq!(build_name_seg(b"A"), b"A___".to_vec());
    assert_eq!(build_name_seg(b"_SB"), b"_SB_".to_vec());
    assert_eq!(build_name_seg(b"PCI0"), b"PCI0".to_vec());
}

#[test]
fn test_name_strings() {
    // the null name
    assert_eq!(build_name_string(b""), vec![0x00]);
    assert_eq!(build_name_string(b"_SB"), b"_SB_".to_vec());
    assert_eq!(build_name_string(b"\\_SB"), b"\\_SB_".to_vec());
    assert_eq!(build_name_string(b"^^ABCD"), b"^^ABCD".to_vec());
    // two segments take the dual prefix
    assert_eq!(build_name_string(b"_SB.PCI0"), b"\x2E_SB_PCI0".to_vec());
    assert_eq!(build_name_string(b"\\A.B"), b"\\\x2EA___B___".to_vec());
    // more take the multi prefix and their number
    assert_eq!(
        build_name_string(b"\\_SB.PCI4.S3LE"),
        b"\\\x2F\x03_SB_PCI4S3LE".to_vec()
    );
    assert_eq!(build_name_string(b"A.B.C.D"), b"\x2F\x04A___B___C___D___".to_vec());
    // an empty segment is nothing but padding
    assert_eq!(build_name_string(b"A."), b"\x2EA_______".to_vec());
    // a first segment of nothing but signs is a segment as well
    assert_eq!(build_name_string(b"\\"), b"\\\\___".to_vec());
    assert_eq!(build_name_string(b"^^.AB"), b"^^\x2E^^__AB__".to_vec());
    assert_eq!(AmlName("\\_GPE".to_string()).aml_bytes(), b"\\_GPE".to_vec());
}

#[test]
fn test_pkg_length() {
    assert_eq!(build_pkg_length(0, false), vec![0x00]);
    assert_eq!(build_pkg_length(0, true), vec![0x01]);
    assert_eq!(build_pkg_length(62, true), vec![0x3F]);
    assert_eq!(build_pkg_length(62, false), vec![0x3E]);
    // from 63 bytes on the length takes two bytes
    assert_eq!(build_pkg_length(63, true), vec![0x41, 0x04]);
    assert_eq!(build_pkg_length(63, false), vec![0x4F, 0x03]);
    assert_eq!(build_pkg_length(0xFFD, true), vec![0x4F, 0xFF]);
    // from 0xFFE bytes on it takes three
    assert_eq!(build_pkg_length(0xFFE, true), vec![0x81, 0x00, 0x01]);
    assert_eq!(build_pkg_length(0xF_FFFC, true), vec![0x8F, 0xFF, 0xFF]);
    // and from 0xFFFFD bytes on four
    assert_eq!(build_pkg_length(0xF_FFFD, true), vec![0xC1, 0x00, 0x00, 0x01]);
    assert_eq!(build_pkg_length(0x123_4567, false), vec![0xC7, 0x56, 0x34, 0x12]);
}

#[test]
fn test_buffer_and_string() {
    assert_eq!(AmlBuffer(vec![]).aml_bytes(), vec![0x11, 0x02, 0x00]);
    assert_eq!(AmlBuffer(vec![0xAA]).aml_bytes(), vec![0x11, 0x03, 0x01, 0xAA]);
    assert_eq!(
        AmlBuffer(vec![1, 2, 3]).aml_bytes(),
        vec![0x11, 0x06, 0x0A, 0x03, 1, 2, 3]
    );
    assert_eq!(AmlString(String::new()).aml_bytes(), vec![0x0D, 0x00]);
    assert_eq!(AmlString("ab".to_string()).aml_bytes(), vec![0x0D, 0x61, 0x62, 0x00]);
    let long = AmlBuffer(vec![0x55; 300]).aml_bytes();
    assert_eq!(long.len(), 1 + 2 + 3 + 300);
    assert_eq!(&long[..6], &[0x11, 0x41, 0x13, 0x0B, 0x2C, 0x01]);
}

#[test]
fn test_uuid_form() {
    assert!(AmlToUuid::check_valid_uuid("33DB4D5B-1FF7-401C-9657-7441C03DD766"));
    assert!(AmlToUuid::check_valid_uuid("33db4d5b-1ff7-401c-9657-7441c03dd766"));
    assert!(!AmlToUuid::check_valid_uuid("33DB4D5B-1FF7-401C-9657-7441C03DD76"));
    assert!(!AmlToUuid::check_valid_uuid("33DB4D5B-1FF7-401C-9657-7441C03DD7666"));
    assert!(!AmlToUuid::check_valid_uuid("33DB4D5B+1FF7-401C-9657-7441C03DD766"));
    assert!(!AmlToUuid::check_valid_uuid("33DB4D5B-1FF7-401C-9657-7441C03DD76G"));
    assert!(!AmlToUuid::check_valid_uuid(""));
    assert_eq!(
        AmlToUuid::new("00112233-4455-6677-8899-aabbccddeeff").aml_bytes(),
        vec![
            0x33, 0x22, 0x11, 0x00, 0x55, 0x44, 0x77, 0x66, 0x88, 0x99, 0xAA, 0xBB, 0xCC, 0xDD,
            0xEE, 0xFF
        ]
    );
}

#[test]
fn test_eisa_id() {
    assert_eq!(
        AmlEisaId::new("PNP0A03").aml_bytes(),
        vec![0x0C, 0x41, 0xD0, 0x0A, 0x03]
    );
    assert_eq!(
        AmlEisaId::new("ACPI0010").aml_bytes().len(),
        5
    );
    assert_eq!(
        AmlEisaId::new("PNP0c0f").aml_bytes(),
        vec![0x0C, 0x41, 0xD0, 0x0C, 0x0F]
    );
}

#[test]
fn test_call_and_branches() {
    let call = AmlCall::new("MTH1", vec![AmlInteger(1), AmlInteger(0x20)]);
    assert_eq!(call.aml_bytes(), vec![0x4D, 0x54, 0x48, 0x31, 0x01, 0x0A, 0x20]);
    let no_args: Vec<AmlZero> = Vec::new();
    assert_eq!(AmlCall::new("\\_SB.M", no_args).aml_bytes(), b"\\\x2E_SB_M___".to_vec());

    let mut otherwise = AmlElse::new();
    assert_eq!(otherwise.aml_bytes(), vec![0xA1, 0x01]);
    otherwise.append_child(AmlReturn::with_value(AmlOnes));
    assert_eq!(otherwise.aml_bytes(), vec![0xA1, 0x03, 0xA4, 0xFF]);

    let mut var_pkg = AmlVarPackage::new(1);
    var_pkg.append_child(AmlLNot::new(AmlLocal(7)));
    assert_eq!(var_pkg.aml_bytes(), vec![0x13, 0x04, 0x01, 0x92, 0x67]);
    assert_eq!(AmlArg(6).aml_bytes(), vec![0x6E]);
    assert_eq!(AmlReturn::new().aml_bytes(), vec![0xA4, 0x00]);
    assert_eq!(
        AmlMethod::new("M", 7, true).aml_bytes(),
        vec![0x14, 0x06, 0x4D, 0x5F, 0x5F, 0x5F, 0x0F]
    );
}

#[test]
fn test_field_flags() {
    let field = AmlField::new(
        "F",
        AmlFieldAccessType::Buffer,
        AmlFieldLockRule::Lock,
        AmlFieldUpdateRule::WriteAsOnes,
    );
    assert_eq!(field.aml_bytes(), vec![0x5B, 0x81, 0x06, 0x46, 0x5F, 0x5F, 0x5F, 0x27]);
    assert_eq!(AmlAddressSpaceType::PCC.code(), 10);
    assert_eq!(AmlFieldAccessType::QWord.code(), 4);
    assert_eq!(AmlFieldUnit::new(None, 200).aml_bytes(), vec![0x00, 0x48, 0x0C]);
    assert_eq!(AmlFieldUnit::new(Some("AB"), 3).aml_bytes(), vec![0x41, 0x42, 0x5F, 0x5F, 0x03]);
}
