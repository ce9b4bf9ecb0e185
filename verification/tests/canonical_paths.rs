//! Canonical paths, compared after resolution.

use lumen_core::canonical::path::{CanonicalPath, PathGrant, PathResolver, PathRights};
use lumen_core::canonical::resource::EffectClass;
use lumen_core::canonical::scope::ResourceScope;
use lumen_core::canonical::CanonicalError;
use std::collections::HashMap;

/// Maps inputs to outputs lexically.
#[derive(Default)]
struct FakeResolver {
    map: HashMap<String, String>,
}

impl FakeResolver {
    fn link(mut self, from: &str, to: &str) -> Self {
        self.map.insert(from.to_string(), to.to_string());
        self
    }
}

impl PathResolver for FakeResolver {
    fn resolve(&self, path: &str) -> Result<String, String> {
        // Longest-prefix link matching on component boundaries, then `..`
        // folding against the resolved path.
        let mut cur = path.to_string();
        for _ in 0..16 {
            let mut hit: Option<(&str, &str)> = None;
            for (from, to) in &self.map {
                let matches = cur == *from
                    || cur
                        .strip_prefix(from.as_str())
                        .is_some_and(|rest| rest.starts_with('/'));
                if matches && hit.map_or(true, |(f, _)| from.len() > f.len()) {
                    hit = Some((from, to));
                }
            }
            match hit {
                Some((from, to)) => {
                    let rest = cur.strip_prefix(from).unwrap_or("").to_string();
                    cur = format!("{to}{rest}");
                }
                None => break,
            }
        }
        let mut out: Vec<&str> = Vec::new();
        for comp in cur.split('/') {
            match comp {
                "" | "." => {}
                ".." => {
                    out.pop();
                }
                c => out.push(c),
            }
        }
        Ok(format!("/{}", out.join("/")))
    }
}

fn canon(p: &str, r: &FakeResolver) -> CanonicalPath {
    CanonicalPath::parse(p, r, false).unwrap()
}

#[test]
fn path_prefix_trick_rejected() {
    let r = FakeResolver::default();
    let root = canon("/data", &r);
    let evil = canon("/database", &r);
    assert!(!evil.is_within(&root));
    let ok = canon("/data/sub/file", &r);
    assert!(ok.is_within(&root));
    assert!(root.is_within(&root));
}

#[test]
fn symlink_escape_defeated() {
    let r = FakeResolver::default().link("/workspace/link", "/etc");
    let root = canon("/workspace", &r);
    let evil = canon("/workspace/link/passwd", &r);
    assert!(!evil.is_within(&root));
}

#[test]
fn traversal_normalized() {
    let r = FakeResolver::default();
    let a = canon("/workspace/a/../b", &r);
    let b = canon("/workspace/b", &r);
    assert_eq!(a, b);
}

#[test]
fn case_folding_view() {
    let r = FakeResolver::default();
    let a = CanonicalPath::parse("/Workspace/SRC", &r, true).unwrap();
    let b = CanonicalPath::parse("/workspace/src", &r, true).unwrap();
    assert_eq!(a, b);
    let c = CanonicalPath::parse("/workspace/src", &r, false).unwrap();
    assert!(!a.is_within(&c)); // different views are incomparable
}

#[test]
fn scope_digest_stable() {
    let r = FakeResolver::default();
    let mut scope = ResourceScope::empty();
    scope.paths.push(PathGrant {
        root: canon("/workspace", &r),
        rights: PathRights::read_only(),
    });
    scope.secrets.insert("db-password".to_string());
    let d1 = scope.canonical_digest().unwrap();
    let d2 = scope.canonical_digest().unwrap();
    assert_eq!(d1, d2);
    assert_eq!(d1.len(), 64);
}

struct Fixed(&'static str);

impl PathResolver for Fixed {
    fn resolve(&self, _: &str) -> Result<String, String> {
        Ok(self.0.to_string())
    }
}

#[test]
fn resolved_paths_hold_no_dots() {
    for bad in ["/a/./b", "/a/../b", "/.", "/a/b/."] {
        assert!(
            matches!(
                CanonicalPath::parse("/link", &Fixed(bad), false),
                Err(CanonicalError::Traversal(_))
            ),
            "{bad}"
        );
    }
    let plain = CanonicalPath::parse("/link", &Fixed("/a/b"), false).unwrap();
    assert_eq!(plain, canon("/a/b", &FakeResolver::default()));
}

#[test]
fn scope_digest_ignores_order_and_repetition() {
    let r = FakeResolver::default();
    let grant = |p: &str| PathGrant {
        root: canon(p, &r),
        rights: PathRights::read_only(),
    };
    let mut a = ResourceScope::empty();
    a.paths = vec![grant("/a"), grant("/b")];
    a.effects = vec![EffectClass::Read, EffectClass::Network];
    let mut b = ResourceScope::empty();
    b.paths = vec![grant("/b"), grant("/a")];
    b.effects = vec![EffectClass::Network, EffectClass::Read, EffectClass::Network];
    let d = a.canonical_digest().unwrap();
    assert_eq!(d, b.canonical_digest().unwrap());
    assert!(d.bytes().all(|c| c.is_ascii_digit() || (b'a'..=b'f').contains(&c)));
    b.effects.push(EffectClass::Write);
    assert_ne!(d, b.canonical_digest().unwrap());
}
