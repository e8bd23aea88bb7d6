use zyrkom::circle::coset::Coset;
use zyrkom::circle::point::CirclePoint;
use zyrkom::fields::m31::{BaseField, M31};
use zyrkom::fields::qm31::SecureField;
use zyrkom::poly::line::{LineDomain, LinePoly};
use zyrkom::prover::line::LineEvaluation;
use zyrkom::prover::secure_column::SecureColumnByCoords;
use zyrkom::utils::{bit_reverse, bit_reverse_index};

#[test]
fn line_evaluation_interpolation() {
    let coeffs: Vec<SecureField> = vec![
        SecureField::from_base(BaseField::from_u32(7)), // 7 * 1
        SecureField::from_base(BaseField::from_u32(9)), // 9 * pi(x)
        SecureField::from_base(BaseField::from_u32(5)), // 5 * x
        SecureField::from_base(BaseField::from_u32(3)), // 3 * pi(x)*x
    ];
    let poly = LinePoly::new(coeffs.clone());
    let coset = Coset::half_odds(poly.len().ilog2());
    let domain = LineDomain::new(coset);
    let mut values: Vec<SecureField> = domain
        .iter()
        .into_iter()
        .map(|x| {
            let pi_x = CirclePoint::double_x(x);
            coeffs[0]
                .add(coeffs[1].mul_m31(pi_x))
                .add(coeffs[2].mul_m31(x))
                .add(coeffs[3].mul_m31(pi_x).mul_m31(x))
        })
        .collect();
    bit_reverse(&mut values, 2);
    let evals = LineEvaluation::new(domain, SecureColumnByCoords::from_vec(&values));

    let interpolated_poly = evals.interpolate();
    let mut interpolated = interpolated_poly.into_ordered_coefficients();
    bit_reverse(&mut interpolated, 2);

    assert_eq!(interpolated, coeffs);
}

#[test]
fn line_polynomial_eval_at_point() {
    const LOG_SIZE: u32 = 2;
    let coset = Coset::half_odds(LOG_SIZE);
    let domain = LineDomain::new(coset);
    let values: Vec<SecureField> = (0..1 << LOG_SIZE)
        .map(|v| SecureField::from_base(M31::from_u32(v)))
        .collect();
    let evals = LineEvaluation::new(domain, SecureColumnByCoords::from_vec(&values));
    let poly = evals.clone().interpolate();

    for (i, x) in domain.iter().into_iter().enumerate() {
        assert_eq!(
            poly.eval_at_point(SecureField::from_base(x)),
            evals.values.at(bit_reverse_index(i, domain.log_size())),
            "mismatch at {i}"
        );
    }
}
