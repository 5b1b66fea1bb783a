//! Same-site path tests.

use pow_gate_core::uri::same_site_path;

#[test]
fn safe_paths() {
    for good in ["/", "/a", "/a//b", "/~x", "/!", "/a?b=c&d='e'#f", "/%20"] {
        assert!(same_site_path(good), "{good:?}");
    }
    for bad in ["", "a", "//", "//a", "/ ", "/\t", "/\u{7f}", "/\u{e9}", "/\"", "/<", "/>", "/\\", "\\/"] {
        assert!(!same_site_path(bad), "{bad:?}");
    }
}
