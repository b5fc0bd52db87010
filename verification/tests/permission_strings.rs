use pls::permissions::{to_string, unix_permissions, windows_attributes};

#[test]
fn renders_common_modes() {
    assert_eq!(to_string(0o755, true, false), "drwxr-xr-x");
    assert_eq!(to_string(0o644, false, false), "-rw-r--r--");
    assert_eq!(to_string(0o777, false, true), "lrwxrwxrwx");
    assert_eq!(to_string(0o000, false, false), "----------");
    assert_eq!(to_string(0o741, false, false), "-rwxr----x");
}

#[test]
fn type_glyph_comes_from_flags_alone() {
    assert_eq!(to_string(0o644, true, false).chars().next(), Some('d'));
    assert_eq!(to_string(0o644, false, true).chars().next(), Some('l'));
    assert_eq!(to_string(0o644, false, false).chars().next(), Some('-'));
    // Contradictory flags fall back to the plain glyph.
    assert_eq!(to_string(0o644, true, true).chars().next(), Some('-'));
}

#[test]
fn ignores_bits_above_the_low_nine() {
    assert_eq!(to_string(0o755 | 0o170000, false, false), to_string(0o755, false, false));
    assert_eq!(to_string(0o4755, false, false), to_string(0o755, false, false));
}

#[test]
fn total_over_all_nine_bit_modes() {
    for mode in 0u32..512 {
        for (is_dir, is_symlink) in [(false, false), (true, false), (false, true), (true, true)] {
            let s = unix_permissions(mode, is_dir, is_symlink);
            assert_eq!(s.chars().count(), 10);
            for (i, c) in s.chars().enumerate() {
                let expected = match i {
                    0 => continue,
                    1 | 4 | 7 => 'r',
                    2 | 5 | 8 => 'w',
                    _ => 'x',
                };
                let bit = 1u32 << (9 - i);
                if mode & bit != 0 {
                    assert_eq!(c, expected);
                } else {
                    assert_eq!(c, '-');
                }
            }
        }
    }
}

#[test]
fn renders_attribute_words() {
    assert_eq!(windows_attributes(16 | 1), "d-r--");
    assert_eq!(windows_attributes(0), "-----");
    assert_eq!(windows_attributes(16 | 32 | 1 | 2 | 4), "darhs");
    assert_eq!(windows_attributes(32 | 2), "-a-h-");
}
