use yk_fxo_disasm::dependency::Action;
use yk_fxo_disasm::disasm::{analyze_program, print_output_depedencies};
use yk_fxo_disasm::order::{arrange, place};
use yk_fxo_disasm::report::{
    group_vectors, outputs, render, split, IoDeclaration, IoDirection, VectorGroup,
};
use yk_fxo_disasm::scalar::{Component, Register, RegisterBank, Scalar, ScalarLocation, ValueKind};
use yk_fxo_disasm::text::push_decimal;

fn reg(bank: RegisterBank, index: u32) -> Register {
    Register { bank, index, kind: ValueKind::Untyped }
}

fn at(bank: RegisterBank, index: u32, comp: Component) -> ScalarLocation {
    ScalarLocation { reg: reg(bank, index), comp }
}

fn r(index: u32, comp: Component) -> ScalarLocation {
    at(RegisterBank::General, index, comp)
}

fn o(index: u32, comp: Component) -> ScalarLocation {
    at(RegisterBank::Output, index, comp)
}

fn v(index: u32, comp: Component) -> ScalarLocation {
    at(RegisterBank::Input, index, comp)
}

fn loc(l: ScalarLocation) -> Scalar {
    Scalar::Location(l)
}

fn assign(output: ScalarLocation, inputs: &[Scalar]) -> Action {
    Action::Dependency { output, inputs: inputs.to_vec() }
}

fn report_of(actions: &[Action]) -> String {
    print_output_depedencies(&actions.to_vec(), &Vec::new())
}

/// Every order of the items.
fn permutations<T: Clone>(items: &[T]) -> Vec<Vec<T>> {
    if items.len() <= 1 {
        return vec![items.to_vec()];
    }
    let mut all = Vec::new();
    for i in 0..items.len() {
        let mut rest = items.to_vec();
        let first = rest.remove(i);
        for mut tail in permutations(&rest) {
            tail.insert(0, first.clone());
            all.push(tail);
        }
    }
    all
}

use Component::{W, X, Y, Z};

#[test]
fn components_of_one_register_are_shown_as_one_vector() {
    let inputs = [loc(r(3, X)), loc(r(3, Y)), loc(r(3, Z)), loc(r(7, W))];
    let orders = permutations(&inputs);
    assert_eq!(orders.len(), 24);
    for order in orders {
        let text = report_of(&[assign(o(0, X), &order)]);
        assert_eq!(text, "Inputs and Outputs:\no0.x depends on [r3.xyz, r7.w]\n");
    }
}

#[test]
fn grouping_keeps_runs_of_one_register_together() {
    let groups = group_vectors(&vec![r(3, X), r(3, Y), r(3, Z), r(7, W)]);
    assert_eq!(
        groups,
        vec![
            VectorGroup { reg: reg(RegisterBank::General, 3), comps: vec![X, Y, Z] },
            VectorGroup { reg: reg(RegisterBank::General, 7), comps: vec![W] },
        ]
    );
    assert!(group_vectors(&Vec::new()).is_empty());
    assert_eq!(
        group_vectors(&vec![v(1, W)]),
        vec![VectorGroup { reg: reg(RegisterBank::Input, 1), comps: vec![W] }]
    );
}

#[test]
fn grouping_follows_the_order_it_is_given() {
    // A register that comes again after another one starts a new group.
    let groups = group_vectors(&vec![r(3, Y), r(3, X), r(7, W), r(3, Z)]);
    assert_eq!(
        groups,
        vec![
            VectorGroup { reg: reg(RegisterBank::General, 3), comps: vec![Y, X] },
            VectorGroup { reg: reg(RegisterBank::General, 7), comps: vec![W] },
            VectorGroup { reg: reg(RegisterBank::General, 3), comps: vec![Z] },
        ]
    );
}

#[test]
fn a_group_carries_the_kind_of_its_register() {
    let mut float = r(3, X);
    float.reg.kind = ValueKind::Float;
    let mut float_y = float;
    float_y.comp = Y;
    let groups = group_vectors(&vec![r(3, X), float, float_y]);
    assert_eq!(groups.len(), 2);
    assert_eq!(groups[0].reg.kind, ValueKind::Untyped);
    assert_eq!(groups[1].reg.kind, ValueKind::Float);
    assert_eq!(groups[1].comps, vec![X, Y]);
    let text = report_of(&[assign(o(0, X), &[loc(float_y), loc(r(3, X)), loc(float)])]);
    assert_eq!(text, "Inputs and Outputs:\no0.x depends on [r3.x, r3.xy:float]\n");
}

#[test]
fn kinds_are_shown_behind_the_name() {
    let mut out = o(2, Z);
    out.reg.kind = ValueKind::SignedInt;
    let mut input = v(0, X);
    input.reg.kind = ValueKind::UnsignedInt;
    let text = report_of(&[assign(out, &[loc(input)])]);
    assert_eq!(text, "Inputs and Outputs:\no2.z:int depends on [v0.x:uint]\n");
}

#[test]
fn an_output_without_dependencies_has_an_empty_list() {
    let text = report_of(&[assign(o(0, X), &[])]);
    assert_eq!(text, "Inputs and Outputs:\no0.x depends on []\n");
    let text = report_of(&[Action::Declaration { name: o(0, X), value: None }]);
    assert_eq!(text, "Inputs and Outputs:\no0.x depends on []\n");
}

#[test]
fn an_output_that_depends_on_literals_alone_shows_the_literals_alone() {
    let text = report_of(&[assign(o(0, X), &[Scalar::Literal(7), Scalar::Literal(3)])]);
    assert_eq!(text, "Inputs and Outputs:\no0.x depends on literals [#3, #7]\n");
}

#[test]
fn locations_and_literals_are_shown_side_by_side() {
    let inputs = [Scalar::Literal(1065353216), loc(v(1, Y)), Scalar::Literal(0), loc(r(0, W))];
    for order in permutations(&inputs) {
        let text = report_of(&[assign(o(0, X), &order)]);
        assert_eq!(
            text,
            "Inputs and Outputs:\no0.x depends on [r0.w, v1.y] and literals [#0, #1065353216]\n"
        );
    }
}

#[test]
fn only_outputs_have_a_line() {
    let actions = [
        assign(r(0, X), &[loc(v(0, X))]),
        assign(v(9, X), &[loc(v(0, X))]),
        assign(at(RegisterBank::Constant, 1, X), &[loc(v(0, X))]),
        assign(o(1, X), &[loc(r(0, X))]),
    ];
    assert_eq!(report_of(&actions), "Inputs and Outputs:\no1.x depends on [v0.x]\n");
}

#[test]
fn lines_stand_in_the_order_of_register_and_component() {
    let lines = [
        (o(10, X), "o10.x depends on []\n"),
        (o(2, W), "o2.w depends on []\n"),
        (o(2, X), "o2.x depends on []\n"),
        (o(0, Z), "o0.z depends on []\n"),
        (o(0, Y), "o0.y depends on []\n"),
    ];
    let expected = "Inputs and Outputs:\n\
                    o0.y depends on []\n\
                    o0.z depends on []\n\
                    o2.x depends on []\n\
                    o2.w depends on []\n\
                    o10.x depends on []\n";
    for order in permutations(&lines) {
        let actions: Vec<Action> = order.iter().map(|(l, _)| assign(*l, &[])).collect();
        assert_eq!(report_of(&actions), expected);
    }
}

#[test]
fn the_report_does_not_depend_on_how_the_dependencies_came_about() {
    let one = [
        assign(o(0, X), &[loc(v(1, X)), loc(v(0, W))]),
        assign(o(1, Y), &[Scalar::Literal(4)]),
        assign(o(0, X), &[loc(v(0, X))]),
    ];
    let other = [
        assign(o(1, Y), &[Scalar::Literal(4), Scalar::Literal(4)]),
        assign(o(0, X), &[loc(v(0, X)), loc(v(0, W)), loc(v(1, X)), loc(v(0, X))]),
    ];
    let expected = "Inputs and Outputs:\n\
                    o0.x depends on [v0.xw, v1.x]\n\
                    o1.y depends on literals [#4]\n";
    assert_eq!(report_of(&one), expected);
    assert_eq!(report_of(&other), expected);
    let deps = analyze_program(&one.to_vec());
    assert_eq!(render(&deps, &Vec::new()), render(&deps, &Vec::new()));
}

#[test]
fn the_whole_report() {
    let actions = vec![
        Action::Declaration { name: v(0, X), value: None },
        assign(r(0, X), &[loc(v(1, X)), loc(v(1, Z))]),
        Action::EarlyOut { guards: vec![loc(r(1, X)), Scalar::Literal(5), loc(r(0, Y))] },
        assign(o(1, W), &[loc(r(0, X)), Scalar::Literal(2)]),
        assign(o(0, X), &[loc(v(0, X))]),
    ];
    let io = vec![
        IoDeclaration { location: v(1, X), direction: IoDirection::Input },
        IoDeclaration { location: o(0, X), direction: IoDirection::Output },
        IoDeclaration { location: v(0, X), direction: IoDirection::Input },
    ];
    let expected = "Inputs and Outputs:\n\
                    \tv1.x input\n\
                    \to0.x output\n\
                    \tv0.x input\n\
                    discard depends on r0.y\n\
                    discard depends on r1.x\n\
                    discard depends on #5\n\
                    o0.x depends on [r0.y, r1.x] and literals [#5]\n\
                    o1.w depends on [r0.y, r1.x, v1.xz] and literals [#2, #5]\n";
    assert_eq!(print_output_depedencies(&actions, &io), expected);
    assert_eq!(render(&analyze_program(&actions), &io), expected);
}

#[test]
fn an_empty_program_has_a_report_of_one_line() {
    assert_eq!(report_of(&[]), "Inputs and Outputs:\n");
}

#[test]
fn banks_come_in_the_order_of_temporaries_constants_inputs_outputs() {
    let inputs = [
        loc(o(0, X)),
        loc(v(0, X)),
        loc(at(RegisterBank::Constant, 0, X)),
        loc(r(4294967295, X)),
    ];
    let text = report_of(&[assign(o(1, X), &inputs)]);
    assert_eq!(text, "Inputs and Outputs:\no1.x depends on [r4294967295.x, c0.x, v0.x, o0.x]\n");
}

#[test]
fn numbers_are_written_in_decimal() {
    for (n, text) in [
        (0u64, "0"),
        (7, "7"),
        (9, "9"),
        (10, "10"),
        (99, "99"),
        (100, "100"),
        (1234567890, "1234567890"),
        (u64::MAX, "18446744073709551615"),
    ] {
        let mut out = String::from("n=");
        push_decimal(&mut out, n);
        assert_eq!(out, format!("n={}", text));
    }
    let text = report_of(&[assign(o(0, X), &[Scalar::Literal(u64::MAX)])]);
    assert_eq!(text, "Inputs and Outputs:\no0.x depends on literals [#18446744073709551615]\n");
}

#[test]
fn scalars_are_split_into_locations_and_literals() {
    let scalars = vec![
        Scalar::Literal(9),
        loc(r(1, Y)),
        Scalar::Literal(2),
        loc(r(1, X)),
        loc(r(0, W)),
        Scalar::Literal(9),
        loc(r(1, Y)),
    ];
    let (locations, literals) = split(&scalars);
    assert_eq!(locations, vec![r(0, W), r(1, X), r(1, Y)]);
    assert_eq!(literals, vec![2, 9]);
    let (locations, literals) = split(&Vec::new());
    assert!(locations.is_empty() && literals.is_empty());
}

#[test]
fn outputs_are_listed_in_ascending_order() {
    let actions = vec![
        assign(o(3, X), &[]),
        assign(r(0, X), &[]),
        assign(o(1, Z), &[]),
        assign(o(1, Y), &[]),
        assign(o(3, X), &[loc(r(0, X))]),
    ];
    assert_eq!(outputs(&analyze_program(&actions)), vec![o(1, Y), o(1, Z), o(3, X)]);
}

#[test]
fn placing_keeps_a_vector_ascending_and_without_repeats() {
    let mut items: Vec<u64> = Vec::new();
    for x in [5u64, 1, 9, 5, 0, 9, 3, u64::MAX, 0] {
        place(&mut items, x);
    }
    assert_eq!(items, vec![0, 1, 3, 5, 9, u64::MAX]);
    assert_eq!(arrange(&vec![3u64, 1, 2, 3, 1]), vec![1, 2, 3]);
    assert_eq!(arrange(&Vec::<u64>::new()), Vec::<u64>::new());
}

#[test]
fn locations_are_ordered_by_register_then_component() {
    let mut float = r(1, X);
    float.reg.kind = ValueKind::Float;
    let sorted = vec![
        r(0, W),
        r(1, X),
        r(1, Y),
        float,
        r(2, X),
        at(RegisterBank::Constant, 0, X),
        v(0, X),
        o(0, X),
    ];
    for order in [
        vec![7usize, 6, 5, 4, 3, 2, 1, 0],
        vec![3, 1, 4, 0, 5, 7, 2, 6],
        vec![0, 1, 2, 3, 4, 5, 6, 7],
    ] {
        let shuffled: Vec<ScalarLocation> = order.iter().map(|i| sorted[*i]).collect();
        assert_eq!(arrange(&shuffled), sorted);
    }
    for i in 0..sorted.len() {
        for j in 0..sorted.len() {
            assert_eq!(sorted[i].sort_key() < sorted[j].sort_key(), i < j);
        }
    }
}

#[test]
fn names_of_banks_components_and_kinds() {
    assert_eq!(RegisterBank::General.to_str(), "r");
    assert_eq!(RegisterBank::Constant.to_str(), "c");
    assert_eq!(RegisterBank::Input.to_str(), "v");
    assert_eq!(RegisterBank::Output.to_str(), "o");
    assert_eq!(X.to_str(), "x");
    assert_eq!(Y.to_str(), "y");
    assert_eq!(Z.to_str(), "z");
    assert_eq!(W.to_str(), "w");
    assert_eq!(ValueKind::Untyped.to_str(), "");
    assert_eq!(ValueKind::Float.to_str(), ":float");
    assert_eq!(ValueKind::SignedInt.to_str(), ":int");
    assert_eq!(ValueKind::UnsignedInt.to_str(), ":uint");
    assert_eq!(IoDirection::Input.to_str(), "input");
    assert_eq!(IoDirection::Output.to_str(), "output");
}

#[test]
fn the_sort_key_packs_bank_number_kind_and_component() {
    assert_eq!(r(0, X).sort_key(), 0);
    assert_eq!(r(0, W).sort_key(), 3);
    assert_eq!(r(1, X).sort_key(), 16);
    let mut l = o(5, Z);
    l.reg.kind = ValueKind::Float;
    assert_eq!(l.sort_key(), ((3 * 0x1_0000_0000u64 + 5) * 4 + 1) * 4 + 2);
    let mut last = o(u32::MAX, W);
    last.reg.kind = ValueKind::UnsignedInt;
    assert_eq!(last.sort_key(), (1u64 << 38) - 1);
}
