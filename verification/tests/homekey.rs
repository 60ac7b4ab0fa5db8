use mfro::homekey::{
    LOGON_DOMAIN, LOGON_USER, logon_buffer,
    dll_can_unload_now, global_ref_add, global_ref_release, CPUS_INVALID, CPUS_LOGON, CPUS_UNLOCK_WORKSTATION, KERB_INTERACTIVE_LOGON,
    KERB_WORKSTATION_UNLOCK_LOGON, LogonLayout, Main, ProviderError, logon_layout, wide_chars,
    wide_chars_nul,
};

#[test]
fn homekey_default_values() {
    assert_eq!(mfro::homekey::default::<i32>(), 0);
    assert_eq!(mfro::homekey::default::<Vec<u8>>(), Vec::<u8>::new());
}

#[test]
fn wide_chars_is_utf16() {
    for text in ["", "Max", "mfro-desktop", "pässwörd", "鍵😀x"] {
        let expected: Vec<u16> = text.encode_utf16().collect();
        assert_eq!(wide_chars(text), expected);
    }
    assert_eq!(wide_chars("😀"), vec![0xd83d, 0xde00]);
}

#[test]
fn wide_chars_nul_terminates() {
    assert_eq!(wide_chars_nul("ab"), vec![0x61, 0x62, 0]);
    assert_eq!(wide_chars_nul(""), vec![0]);
}

#[test]
fn usage_scenarios() {
    let mut main: Main<u8> = Main::new();
    assert_eq!(main.set_usage_scenario(CPUS_INVALID), Err(ProviderError::NotImplemented));
    assert_eq!(main.set_usage_scenario(5), Err(ProviderError::NotImplemented));
    assert_eq!(main.set_usage_scenario(CPUS_LOGON), Ok(()));
    assert_eq!(main.set_usage_scenario(CPUS_UNLOCK_WORKSTATION), Ok(()));
}

#[test]
fn unlock_without_listener_is_dropped() {
    let mut main: Main<u8> = Main::new();
    assert_eq!(main.unlock("pw".to_string()), None);
    assert_eq!(main.credential_count(), (0, 0, false));
    assert!(!main.set_selected());
    assert!(main.take_serialization().is_none());
}

#[test]
fn unlock_with_listener_is_submitted_once() {
    let mut main: Main<&str> = Main::new();
    main.set_usage_scenario(CPUS_UNLOCK_WORKSTATION).unwrap();
    main.advise("events", 77);
    assert_eq!(main.advisee(), Some(&"events"));
    assert_eq!(main.unlock("pw".to_string()), Some(77));
    assert_eq!(main.credential_count(), (1, 0, true));
    assert!(main.set_selected());
    let (password, message) = main.take_serialization().unwrap();
    assert_eq!(password, "pw");
    assert_eq!(message, Ok(KERB_WORKSTATION_UNLOCK_LOGON));
    assert!(main.take_serialization().is_none());
    assert_eq!(main.credential_count(), (0, 0, false));
}

#[test]
fn serialization_per_scenario() {
    let mut main: Main<u8> = Main::new();
    main.advise(1, 2);
    main.unlock("a".to_string());
    assert_eq!(main.take_serialization().unwrap().1, Err(ProviderError::Fail));
    main.set_usage_scenario(CPUS_LOGON).unwrap();
    main.unlock("b".to_string());
    assert_eq!(main.take_serialization().unwrap().1, Ok(KERB_INTERACTIVE_LOGON));
    main.unadvise();
    assert_eq!(main.advisee(), None);
    assert_eq!(main.unlock("c".to_string()), None);
}

#[test]
fn logon_layout_offsets() {
    let l = logon_layout(64, 12, 3, 40);
    assert_eq!(
        l,
        LogonLayout {
            offset_domain: 64,
            offset_user: 88,
            offset_password: 94,
            total_size: 174,
            domain_length: 24,
            user_length: 6,
            password_length: 80,
        }
    );
    let big = logon_layout(0, 40000, 0, 0);
    assert_eq!(big.domain_length, (80000u32 % 65536) as u16);
}

#[test]
fn reference_count_keeps_library_loaded() {
    let mut count: usize = 0;
    assert!(dll_can_unload_now(count));
    global_ref_add(&mut count);
    global_ref_add(&mut count);
    assert_eq!(count, 2);
    assert!(!dll_can_unload_now(count));
    global_ref_release(&mut count);
    assert_eq!(count, 1);
    global_ref_release(&mut count);
    assert!(dll_can_unload_now(count));
}

#[test]
fn reference_count_wraps_like_an_atomic() {
    let mut count: usize = 0;
    global_ref_release(&mut count);
    assert_eq!(count, usize::MAX);
    global_ref_add(&mut count);
    assert_eq!(count, 0);
}

#[test]
fn logon_buffer_places_strings_after_header() {
    let header = [0u8; 8];
    let domain = wide_chars(LOGON_DOMAIN);
    let user = wide_chars(LOGON_USER);
    let password = vec![0x0041u16, 0x2603, 0x0000];
    let buf = logon_buffer(&header, &domain, &user, &password);
    let layout = logon_layout(header.len(), domain.len(), user.len(), password.len());
    assert_eq!(buf.len(), layout.total_size);
    assert_eq!(&buf[..8], &header);
    let le = |units: &[u16]| units.iter().flat_map(|u| u.to_le_bytes()).collect::<Vec<u8>>();
    assert_eq!(&buf[layout.offset_domain..layout.offset_user], le(&domain).as_slice());
    assert_eq!(&buf[layout.offset_user..layout.offset_password], le(&user).as_slice());
    assert_eq!(&buf[layout.offset_password..], &[0x41, 0x00, 0x03, 0x26, 0x00, 0x00]);
    assert_eq!(&buf[layout.offset_user..layout.offset_password], b"M\0a\0x\0");
}
