use compost::ast::type_statement::RawType;
use compost::sem::table::Table;
use compost::sem::trayt::Trait;
use compost::sem::typ::{combine_types, Type};
use compost::sem::type_checking::{check_type_fits, type_contains};

#[test]
fn test_fits() {
    let mut traits = Table::new("Trait");
    let trait_a = traits.declare("Trait A", Trait::dummy("Trait A", 0)).unwrap();
    let trait_b = traits.declare("Trait B", Trait::dummy("Trait B", 0)).unwrap();

    let a = Type::Trait(trait_a);
    let b = Type::Trait(trait_b);
    let a_and_b = Type::And(
        Box::new(Type::Trait(trait_a)),
        Box::new(Type::Trait(trait_b)),
    );
    let b_and_a = Type::And(
        Box::new(Type::Trait(trait_b)),
        Box::new(Type::Trait(trait_a)),
    );
    let a_or_b = Type::Or(
        Box::new(Type::Trait(trait_a)),
        Box::new(Type::Trait(trait_b)),
    );

    assert_eq!(check_type_fits(&a, &a), Ok(()), "Trait A fits Trait A",);

    assert_eq!(
        check_type_fits(&a, &b),
        Err(()),
        "Trait A doesn't fit Trait B",
    );

    assert_eq!(
        check_type_fits(&a, &a_or_b),
        Ok(()),
        "Trait A fits Trait A or Trait B",
    );

    assert_eq!(
        check_type_fits(&a, &a_and_b),
        Err(()),
        "Trait A doesn't fit Trait A and Trait B",
    );

    assert_eq!(
        check_type_fits(&a_and_b, &a),
        Ok(()),
        "Trait A and Trait B fits Trait A",
    );

    assert_eq!(
        check_type_fits(&a_and_b, &b),
        Ok(()),
        "Trait A and Trait B fits Trait B",
    );

    assert_eq!(
        check_type_fits(&a_and_b, &b_and_a),
        Ok(()),
        "Trait A and Trait B fits Trait B and Trait A",
    );

    assert_eq!(
        check_type_fits(&a_and_b, &a_or_b),
        Ok(()),
        "Trait A and Trait B fits Trait A or Trait B",
    );

    assert_eq!(
        check_type_fits(&a_or_b, &a_and_b),
        Err(()),
        "Trait A or Trait B doesn't fit Trait A and Trait B",
    );
}

#[test]
fn fit_is_reflexive_and_transitive_on_atoms_and_void_is_top() {
    let atoms = vec![
        Type::Trait(0),
        Type::Trait(1),
        Type::Raw(RawType::Int),
        Type::Raw(RawType::Bool),
        Type::Zelf,
        Type::Void,
    ];
    for a in &atoms {
        assert_eq!(check_type_fits(a, a), Ok(()));
        assert_eq!(check_type_fits(a, &Type::Void), Ok(()));
        for b in &atoms {
            for c in &atoms {
                if check_type_fits(a, b).is_ok() && check_type_fits(b, c).is_ok() {
                    assert_eq!(check_type_fits(a, c), Ok(()));
                }
            }
        }
    }
    let either = Type::Or(Box::new(Type::Trait(0)), Box::new(Type::Trait(1)));
    assert_eq!(check_type_fits(&either, &Type::Void), Ok(()));
    // A given union fits where one of its branches does.
    assert_eq!(check_type_fits(&either, &either.clone()), Ok(()));
    assert_eq!(check_type_fits(&either, &Type::Trait(0)), Ok(()));
    assert_eq!(check_type_fits(&either, &Type::Trait(1)), Ok(()));
    assert_eq!(check_type_fits(&either, &Type::Trait(2)), Err(()));
    // No branch alone has both.
    let both = Type::And(Box::new(Type::Trait(0)), Box::new(Type::Trait(1)));
    assert_eq!(check_type_fits(&either, &both), Err(()));
}

#[test]
fn contains_looks_along_the_and_chain_only() {
    let chain = Type::And(
        Box::new(Type::And(Box::new(Type::Trait(0)), Box::new(Type::Zelf))),
        Box::new(Type::Raw(RawType::String)),
    );
    assert!(type_contains(&chain, &Type::Trait(0)));
    assert!(type_contains(&chain, &Type::Zelf));
    assert!(type_contains(&chain, &Type::Raw(RawType::String)));
    assert!(type_contains(&chain, &Type::Void));
    assert!(!type_contains(&chain, &Type::Trait(1)));
    assert!(!type_contains(&chain, &Type::Raw(RawType::Int)));
    let choice = Type::Or(Box::new(Type::Trait(0)), Box::new(Type::Trait(1)));
    assert!(!type_contains(&choice, &Type::Trait(0)));
    assert!(type_contains(&choice, &choice.clone()));
}

#[test]
fn combine_types_chains_from_the_left() {
    assert_eq!(combine_types(vec![]), Type::Void);
    assert_eq!(combine_types(vec![Type::Trait(3)]), Type::Trait(3));
    assert_eq!(
        combine_types(vec![Type::Trait(1), Type::Trait(2), Type::Zelf]),
        Type::And(
            Box::new(Type::And(Box::new(Type::Trait(1)), Box::new(Type::Trait(2)))),
            Box::new(Type::Zelf),
        )
    );
}
