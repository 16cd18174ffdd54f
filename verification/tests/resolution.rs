use logholizon_core::resolution::{formula_edges, resolution_order, Stop};

fn s(v: &[&str]) -> Vec<String> {
    v.iter().map(|x| x.to_string()).collect()
}

#[test]
fn formulas_are_computed_after_what_they_refer_to() {
    let names = s(&["total", "net", "tax"]);
    let deps = vec![s(&["net", "tax"]), s(&["price", "qty"]), s(&["net", "rate"])];
    let edges = formula_edges(&names, &deps);
    assert_eq!(edges, vec![vec![1, 2], vec![], vec![1]]);
    let plan = resolution_order(&edges);
    assert!(plan.stop.is_none());
    assert_eq!(plan.order, vec![1, 2, 0]);
}

#[test]
fn circular_and_deep_references_stop_the_computation() {
    let names = s(&["a", "b", "c"]);
    let deps = vec![s(&["x"]), s(&["c"]), s(&["b"])];
    let plan = resolution_order(&formula_edges(&names, &deps));
    assert_eq!(plan.order, vec![0]);
    assert!(matches!(plan.stop, Some(Stop::Cycle(1))));

    let own = resolution_order(&vec![vec![0]]);
    assert!(own.order.is_empty());
    assert!(matches!(own.stop, Some(Stop::Cycle(0))));

    let n = 70;
    let chain: Vec<Vec<usize>> = (0..n).map(|i| if i + 1 < n { vec![i + 1] } else { vec![] }).collect();
    let deep = resolution_order(&chain);
    assert!(matches!(deep.stop, Some(Stop::TooDeep)));
    assert!(deep.order.is_empty());

    let short: Vec<Vec<usize>> = (0..65).map(|i| if i + 1 < 65 { vec![i + 1] } else { vec![] }).collect();
    let ok = resolution_order(&short);
    assert!(ok.stop.is_none());
    assert_eq!(ok.order.len(), 65);
    assert_eq!(ok.order[0], 64);
}
