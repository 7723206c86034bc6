use complexity_bench::component::Component;
use complexity_bench::fit::prepare;
use complexity_bench::fit::regression_formula;
use complexity_bench::fit::AnalyzeError;
use linregress::FormulaRegressionBuilder;
use linregress::RegressionDataBuilder;

struct Fit {
    rsquared: f64,
    constant: f64,
    coefficients: Vec<(Component, f64)>,
}

/// Fits `data` against `components` with the solver, through the prepared
/// plan.
fn fit(components: &[Component], data: &[(u64, u64)]) -> Result<Fit, AnalyzeError> {
    let plan = prepare(&components.to_vec(), &data.to_vec())?;
    let y: Vec<f64> = data.iter().map(|&(_, c)| c as f64).collect();
    let x: Vec<f64> = data.iter().map(|&(n, _)| n as f64).collect();
    let columns = vec![
        ("Y", y),
        (Component::N.key(), x.clone()),
        (Component::N2.key(), x.iter().map(|&v| v * v).collect()),
        (Component::LogN.key(), x.iter().map(|&v| v.log2()).collect()),
        (Component::NLogN.key(), x.iter().map(|&v| v * v.log2()).collect()),
    ];
    let table = RegressionDataBuilder::new().build_from(columns).unwrap();
    let model = FormulaRegressionBuilder::new()
        .data(&table)
        .formula(plan.formula.clone())
        .fit()
        .unwrap();
    let params = model.parameters();
    let coefficients = plan
        .components
        .iter()
        .enumerate()
        .map(|(i, &c)| (c, params[i + 1]))
        .collect();
    Ok(Fit { rsquared: model.rsquared(), constant: params[0], coefficients })
}

fn coefficient(f: &Fit, c: Component) -> f64 {
    f.coefficients.iter().find(|(k, _)| *k == c).unwrap().1
}

fn samples(cost: impl Fn(u64) -> u64) -> Vec<(u64, u64)> {
    (1..1000u64).map(|x| (x, cost(x))).collect()
}

#[test]
fn formula_for_one_component() {
    assert_eq!(regression_formula(&vec![Component::N]), "Y ~ X_N");
}

#[test]
fn formula_for_all_components() {
    let all = vec![Component::N, Component::N2, Component::LogN, Component::NLogN];
    assert_eq!(regression_formula(&all), "Y ~ X_N + X_N2 + X_LOGN + X_NLOGN");
}

#[test]
fn prepare_normalizes_the_selection() {
    let data = samples(|x| x);
    let plan = prepare(&vec![Component::NLogN, Component::N, Component::NLogN], &data).unwrap();
    assert_eq!(plan.components, vec![Component::N, Component::NLogN]);
    assert_eq!(plan.formula, "Y ~ X_N + X_NLOGN");
}

#[test]
fn empty_selection_is_degenerate() {
    let data = samples(|x| x);
    assert_eq!(prepare(&Vec::new(), &data).err(), Some(AnalyzeError::DegenerateFit));
}

#[test]
fn size_zero_is_rejected() {
    let data = vec![(0, 1), (1, 2), (2, 3), (3, 4)];
    assert_eq!(prepare(&vec![Component::N], &data).err(), Some(AnalyzeError::ZeroSize));
}

#[test]
fn too_few_samples_are_rejected() {
    let data = vec![(1, 1), (2, 2)];
    assert_eq!(
        prepare(&vec![Component::N], &data).err(),
        Some(AnalyzeError::InsufficientSamples)
    );
    let three = vec![(1, 1), (2, 2), (3, 3)];
    assert!(prepare(&vec![Component::N], &three).is_ok());
    assert_eq!(
        prepare(&vec![Component::N, Component::N2], &three).err(),
        Some(AnalyzeError::InsufficientSamples)
    );
}

#[test]
fn exact_linear_cost_fits_slope_one() {
    let f = fit(&[Component::N], &samples(|x| x)).unwrap();
    assert!((coefficient(&f, Component::N) - 1.0).abs() < 1e-3);
    assert!((f.rsquared - 1.0).abs() < 1e-3);
}

#[test]
fn linear_cost_with_offset_fits_constant() {
    let f = fit(&[Component::N], &samples(|x| x + 25)).unwrap();
    assert!((coefficient(&f, Component::N) - 1.0).abs() < 1e-3);
    assert!((f.constant - 25.0).abs() < 1e-3);
}

#[test]
fn noisy_linear_cost_still_fits_slope_one() {
    let f = fit(&[Component::N], &samples(|x| x + x % 5)).unwrap();
    assert!((coefficient(&f, Component::N) - 1.0).abs() < 1e-3);
    assert!(f.rsquared < 1.0);
    assert!(f.rsquared > 0.99);
}

#[test]
fn quadratic_cost_against_linear_fits_poorly() {
    let f = fit(&[Component::N], &samples(|x| x * x)).unwrap();
    assert!(f.rsquared < 0.95);
}

#[test]
fn end_to_end_identity_samples() {
    let f = fit(&[Component::N], &samples(|x| x)).unwrap();
    assert!((coefficient(&f, Component::N) - 1.0).abs() < 1e-3);
    assert!(f.constant.abs() < 1e-3);
    assert_eq!(f.coefficients.len(), 1);
}

#[test]
fn end_to_end_offset_samples() {
    let f = fit(&[Component::N], &samples(|x| x + 25)).unwrap();
    assert!((coefficient(&f, Component::N) - 1.0).abs() < 1e-3);
    assert!((f.constant - 25.0).abs() < 1e-3);
}

#[test]
fn repeated_fits_are_identical() {
    let data = samples(|x| 3 * x + x % 7);
    let a = fit(&[Component::N, Component::LogN], &data).unwrap();
    let b = fit(&[Component::N, Component::LogN], &data).unwrap();
    assert_eq!(a.rsquared.to_bits(), b.rsquared.to_bits());
    assert_eq!(a.constant.to_bits(), b.constant.to_bits());
    assert_eq!(a.coefficients.len(), b.coefficients.len());
    for (x, y) in a.coefficients.iter().zip(b.coefficients.iter()) {
        assert_eq!(x.0, y.0);
        assert_eq!(x.1.to_bits(), y.1.to_bits());
    }
}

#[test]
fn selection_order_does_not_change_the_fit() {
    let data = samples(|x| x * x + 2 * x);
    let a = fit(&[Component::N2, Component::N], &data).unwrap();
    let b = fit(&[Component::N, Component::N2], &data).unwrap();
    assert_eq!(a.constant.to_bits(), b.constant.to_bits());
    assert_eq!(a.rsquared.to_bits(), b.rsquared.to_bits());
    assert_eq!(
        coefficient(&a, Component::N2).to_bits(),
        coefficient(&b, Component::N2).to_bits()
    );
    assert_eq!(coefficient(&a, Component::N).to_bits(), coefficient(&b, Component::N).to_bits());
}

#[test]
fn duplicate_selection_fits_as_deduplicated() {
    let data = samples(|x| 5 * x + 9);
    let a = fit(&[Component::N, Component::N, Component::N], &data).unwrap();
    let b = fit(&[Component::N], &data).unwrap();
    assert_eq!(a.coefficients.len(), 1);
    assert_eq!(coefficient(&a, Component::N).to_bits(), coefficient(&b, Component::N).to_bits());
    assert_eq!(a.constant.to_bits(), b.constant.to_bits());
}
