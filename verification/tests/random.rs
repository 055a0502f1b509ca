use random_pickfile::random::{apply_swaps, id_from_picks, random_id, shuffle};

const ALPHABET: &str = "_-0123456789abcdefghijklmnopqrstuvwxyzABCDEFGHIJKLMNOPQRSTUVWXYZ";

#[test]
fn id_alphabet_order() {
    let all: Vec<usize> = (0..64).collect();
    assert_eq!(id_from_picks(&all), ALPHABET);
    assert_eq!(id_from_picks(&vec![2, 12, 38, 0, 1, 63]), "0aA_-Z");
}

#[test]
fn random_ids_have_length_and_alphabet() {
    for _ in 0..50 {
        let id = random_id(12);
        assert_eq!(id.chars().count(), 12);
        assert!(id.chars().all(|c| ALPHABET.contains(c)));
    }
    assert_eq!(random_id(0), "");
}

#[test]
fn swaps_in_order() {
    let mut v = vec!['a', 'b', 'c', 'd', 'e'];
    // position 0 with 3, then position 1 with 1
    apply_swaps(&mut v, &vec![3, 1]);
    assert_eq!(v, vec!['d', 'b', 'c', 'a', 'e']);
    let mut w = vec![1, 2, 3];
    apply_swaps(&mut w, &vec![2, 0]);
    // [3, 2, 1] then swap 1 and 0 -> [2, 3, 1]
    assert_eq!(w, vec![2, 3, 1]);
}

#[test]
fn shuffle_is_a_permutation() {
    for n in 0..12 {
        let before: Vec<usize> = (0..n).map(|k| k % 4).collect();
        let mut v = before.clone();
        shuffle(&mut v);
        let mut a = v.clone();
        a.sort();
        let mut b = before.clone();
        b.sort();
        assert_eq!(a, b);
    }
}
