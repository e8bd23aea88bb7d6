use zyrkom::circle::coset::Coset;
use zyrkom::circle::point::CirclePoint;
use zyrkom::fields::m31::BaseField;
use zyrkom::poly::line::LineDomain;

#[test]
fn line_domain_of_size_two_works() {
    const LOG_SIZE: u32 = 1;
    let coset = Coset::subgroup(LOG_SIZE);

    LineDomain::new(coset);
}

#[test]
fn line_domain_of_size_one_works() {
    const LOG_SIZE: u32 = 0;
    let coset = Coset::subgroup(LOG_SIZE);

    LineDomain::new(coset);
}

#[test]
fn line_domain_size_is_correct() {
    const LOG_SIZE: u32 = 8;
    let coset = Coset::half_odds(LOG_SIZE);
    let domain = LineDomain::new(coset);

    let size = domain.size();

    assert_eq!(size, 1 << LOG_SIZE);
}

#[test]
fn line_domain_coset_returns_the_coset() {
    let coset = Coset::half_odds(5);
    let domain = LineDomain::new(coset);

    assert_eq!(domain.coset(), coset);
}

#[test]
fn line_domain_double_works() {
    const LOG_SIZE: u32 = 8;
    let coset = Coset::half_odds(LOG_SIZE);
    let domain = LineDomain::new(coset);

    let doubled_domain = domain.double();

    assert_eq!(doubled_domain.size(), 1 << (LOG_SIZE - 1));
    assert_eq!(doubled_domain.at(0), CirclePoint::double_x(domain.at(0)));
    assert_eq!(doubled_domain.at(1), CirclePoint::double_x(domain.at(1)));
}

#[test]
fn line_domain_iter_works() {
    const LOG_SIZE: u32 = 8;
    let coset = Coset::half_odds(LOG_SIZE);
    let domain = LineDomain::new(coset);

    let elements: Vec<BaseField> = domain.iter();

    assert_eq!(elements.len(), domain.size());
    for (i, element) in elements.into_iter().enumerate() {
        assert_eq!(element, domain.at(i), "mismatch at {i}");
    }
}

#[test]
fn line_domain_rejects_shared_first_coordinates() {
    // The odd coset of four points holds each first coordinate twice.
    assert!(LineDomain::try_new(Coset::odds(2)).is_none());
    assert!(LineDomain::try_new(Coset::half_odds(2)).is_some());
}
