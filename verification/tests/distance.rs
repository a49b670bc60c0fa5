use ansible_vault_lsp::distance::{edit_distance_at_most, one_edit_apart};

fn naive(a: &[u8], b: &[u8]) -> usize {
    if a.is_empty() {
        return b.len();
    }
    if b.is_empty() {
        return a.len();
    }
    let (x, y) = (&a[..a.len() - 1], &b[..b.len() - 1]);
    let changed = usize::from(a[a.len() - 1] != b[b.len() - 1]);
    (naive(x, y) + changed)
        .min(naive(a, y) + 1)
        .min(naive(x, b) + 1)
}

fn words(alphabet: &str, longest: usize) -> Vec<Vec<u8>> {
    let mut out = vec![Vec::new()];
    let mut level: Vec<Vec<u8>> = vec![Vec::new()];
    for _ in 0..longest {
        let mut next = Vec::new();
        for word in &level {
            for c in alphabet.bytes() {
                let mut longer = word.clone();
                longer.push(c);
                next.push(longer);
            }
        }
        out.extend(next.iter().cloned());
        level = next;
    }
    out
}

#[test]
fn bounded_distance_is_the_levenshtein_distance() {
    let all = words("ab", 4);
    for a in &all {
        for b in &all {
            let exact = naive(a, b);
            for maximum in 0..5 {
                assert_eq!(edit_distance_at_most(a, b, maximum), exact <= maximum);
            }
        }
    }
}

#[test]
fn one_edit_is_distance_one() {
    let all = words("abc", 3);
    for a in &all {
        for b in &all {
            assert_eq!(one_edit_apart(a, b), naive(a, b) == 1);
        }
    }
}

#[test]
fn known_distances() {
    assert!(edit_distance_at_most(b"kitten", b"sitting", 3));
    assert!(!edit_distance_at_most(b"kitten", b"sitting", 2));
    assert!(edit_distance_at_most(b"kitten", b"sitting", usize::MAX));
    assert!(!edit_distance_at_most("\u{1f600}".as_bytes(), b"e", 1));
    assert!(!edit_distance_at_most("\u{1f600}".as_bytes(), b"e", 3));
    assert!(edit_distance_at_most("\u{1f600}".as_bytes(), b"e", 4));
    assert!(edit_distance_at_most(b"ab", b"ba", 2));
    assert!(!edit_distance_at_most(b"ab", b"ba", 1));
    assert!(one_edit_apart(b"$sANSIBLE_VAULT", b"$ANSIBLE_VAULT"));
    assert!(one_edit_apart(b"$ANSIBLE_VULT", b"$ANSIBLE_VAULT"));
    assert!(one_edit_apart(b"$ANSIBLE-VAULT", b"$ANSIBLE_VAULT"));
    assert!(!one_edit_apart(b"$ANSIBLE_VAULT", b"$ANSIBLE_VAULT"));
    assert!(!one_edit_apart("$ANSIBLE_VAULT\u{e9}".as_bytes(), b"$ANSIBLE_VAULT"));
}
