use cirdean::book::plateau_centre;

#[test]
fn a_flat_minimum_is_centred() {
    let profile = [9, 9, 2, 2, 2, 2, 2, 9];
    let centre = plateau_centre(profile.len(), 2, |index: usize| profile[index] == 2);
    assert_eq!(centre, 4);
}

#[test]
fn a_sharp_minimum_is_its_own_centre() {
    let profile = [9, 5, 1, 5, 9];
    assert_eq!(plateau_centre(profile.len(), 2, |index: usize| profile[index] == 1), 2);
}

#[test]
fn plateaus_reaching_the_ends_are_bounded_by_them() {
    let profile = [1, 1, 1, 1, 7];
    assert_eq!(plateau_centre(profile.len(), 0, |index: usize| profile[index] == 1), 1);
    let flat = [3, 3, 3];
    assert_eq!(plateau_centre(flat.len(), 1, |index: usize| flat[index] == 3), 1);
    assert_eq!(plateau_centre(1, 0, |_| true), 0);
}
