use complexity_bench::component::normalize;
use complexity_bench::component::Component;

#[test]
fn keys_name_each_column() {
    assert_eq!(Component::N.key(), "X_N");
    assert_eq!(Component::N2.key(), "X_N2");
    assert_eq!(Component::LogN.key(), "X_LOGN");
    assert_eq!(Component::NLogN.key(), "X_NLOGN");
}

#[test]
fn labels_name_each_component() {
    assert_eq!(Component::N.label(), "n");
    assert_eq!(Component::N2.label(), "n²");
    assert_eq!(Component::LogN.label(), "logn");
    assert_eq!(Component::NLogN.label(), "nlogn");
}

#[test]
fn normalize_sorts_and_dedups() {
    let v = vec![Component::NLogN, Component::N, Component::LogN, Component::N];
    assert_eq!(normalize(&v), vec![Component::N, Component::LogN, Component::NLogN]);
}

#[test]
fn normalize_of_empty_is_empty() {
    assert_eq!(normalize(&Vec::new()), Vec::<Component>::new());
}

#[test]
fn normalize_ignores_selection_order() {
    let a = vec![Component::N2, Component::N];
    let b = vec![Component::N, Component::N2];
    assert_eq!(normalize(&a), normalize(&b));
    assert_eq!(normalize(&a), vec![Component::N, Component::N2]);
}

#[test]
fn normalize_ignores_duplicates() {
    let a = vec![Component::LogN, Component::LogN, Component::LogN];
    assert_eq!(normalize(&a), normalize(&vec![Component::LogN]));
}

#[test]
fn normalize_is_idempotent() {
    let a = vec![Component::NLogN, Component::N2, Component::N2];
    let once = normalize(&a);
    assert_eq!(normalize(&once), once);
}

#[test]
fn components_order_canonically() {
    assert!(Component::N < Component::N2);
    assert!(Component::N2 < Component::LogN);
    assert!(Component::LogN < Component::NLogN);
}
