use orbital_scheme::variables::{set_var, Variable};

fn names(v: &[Variable]) -> Vec<(Vec<u8>, Vec<u8>)> {
    v.iter().map(|x| (x.name.clone(), x.value.clone())).collect()
}

#[test]
fn set_var_adds_replaces_and_removes() {
    let mut v: Vec<Variable> = Vec::new();
    set_var(&mut v, b"a", b"1");
    set_var(&mut v, b"b", b"2");
    assert_eq!(names(&v), vec![(b"a".to_vec(), b"1".to_vec()), (b"b".to_vec(), b"2".to_vec())]);
    set_var(&mut v, b"a", b"3");
    assert_eq!(names(&v), vec![(b"a".to_vec(), b"3".to_vec()), (b"b".to_vec(), b"2".to_vec())]);
    set_var(&mut v, b"a", b"");
    assert_eq!(names(&v), vec![(b"b".to_vec(), b"2".to_vec())]);
    set_var(&mut v, b"", b"x");
    set_var(&mut v, b"zz", b"");
    assert_eq!(names(&v), vec![(b"b".to_vec(), b"2".to_vec())]);
}
