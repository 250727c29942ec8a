use nefor_mag::builtins::{builtin_names, builtin_overload_types, collides_with_builtin};
use nefor_mag::compat::compatible_in;
use nefor_mag::env::Env;
use nefor_mag::resolve::TYPE_DEPTH_LIMIT;
use nefor_mag::session::define_standard;
use nefor_mag::types::{MagType, Names, Subst};

fn standard_env() -> Env {
    let mut env = Env::empty("main");
    define_standard(&mut env);
    env
}

#[test]
fn every_visible_builtin_has_collision_signatures() {
    let env = standard_env();
    for name in builtin_names() {
        let signatures = if name == "str" {
            let representative = MagType::Function(vec![MagType::Int], Box::new(MagType::String));
            builtin_overload_types(name, Some(&representative))
        } else {
            builtin_overload_types(name, None)
        };
        assert!(
            !signatures.is_empty(),
            "visible builtin {name} has no signature inventory"
        );
        for signature in signatures {
            assert!(
                collides_with_builtin(&env, name, &signature),
                "visible builtin {name} does not recognize signature {}",
                signature.text()
            );
        }
    }
}

#[test]
fn visible_word_builtins_use_canonical_snake_case() {
    for name in builtin_names() {
        if name.chars().any(char::is_alphanumeric) {
            assert!(
                !name.contains('-') && !name.contains('?'),
                "noncanonical builtin {name}"
            );
        }
    }
}

#[test]
fn generic_product_components_are_inferred_positionally() {
    let env = standard_env();
    let actual = MagType::Product(vec![MagType::String, MagType::String]);
    let expected = MagType::Product(vec![MagType::Var("A".into()), MagType::Var("B".into())]);
    let bindable = Names::of(&vec!["A".to_owned(), "B".to_owned()]);
    let mut substitution = Subst::new();
    compatible_in(
        &env,
        &actual,
        &expected,
        &mut substitution,
        Some(&bindable),
        TYPE_DEPTH_LIMIT,
    )
    .expect("a product should infer each generic occurrence");
    assert!(matches!(substitution.get("A"), Some(MagType::String)));
    assert!(matches!(substitution.get("B"), Some(MagType::String)));
}
