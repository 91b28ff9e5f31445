use llcap_server::error::Error;
use llcap_server::modmap::ExtModuleMap;
use llcap_server::modmap::IntegralFnId;
use llcap_server::modmap::IntegralModId;
use llcap_server::modmap::NumFunUid;
use llcap_server::phase::functions_to_test;
use llcap_server::phase::mask_fn_selection;
use llcap_server::sizetype_handlers::ArgSizeTypeRef;

fn uid(module: u32, function: u32) -> NumFunUid {
    NumFunUid::from((IntegralModId(module), IntegralFnId(function)))
}

fn sample() -> ExtModuleMap {
    let mut map = ExtModuleMap::new();
    assert_eq!(map.add_module(IntegralModId(2), "second".to_owned()), Ok(()));
    assert_eq!(map.add_module(IntegralModId(1), "first".to_owned()), Ok(()));
    assert_eq!(map.add_function(uid(1, 9), "f".to_owned(), vec![ArgSizeTypeRef::Custom]), Ok(()));
    assert_eq!(map.add_function(uid(2, 9), "g".to_owned(), vec![]), Ok(()));
    assert_eq!(map.add_function(uid(1, 4), "h".to_owned(), vec![ArgSizeTypeRef::Empty]), Ok(()));
    map
}

#[test]
fn numbers_are_shown_in_eight_digits() {
    assert_eq!(IntegralModId(0).hex_string(), "00000000");
    assert_eq!(IntegralModId(0xAB).hex_string(), "000000AB");
    assert_eq!(IntegralFnId(u32::MAX).hex_string(), "FFFFFFFF");
}

#[test]
fn what_was_added_is_found() {
    let map = sample();
    assert_eq!(map.get_module_string_id(IntegralModId(1)), Some(&"first".to_owned()));
    assert_eq!(map.get_module_string_id(IntegralModId(3)), None);
    assert_eq!(map.get_function_name(uid(1, 4)), Some(&"h".to_owned()));
    assert_eq!(map.get_function_name(uid(2, 4)), None);
    assert_eq!(
        map.get_function_arg_size_descriptors(uid(1, 9)),
        Some(&vec![ArgSizeTypeRef::Custom])
    );
    assert_eq!(map.modules(), vec![IntegralModId(2), IntegralModId(1)]);
    assert_eq!(map.functions(IntegralModId(1)), Some(vec![IntegralFnId(9), IntegralFnId(4)]));
    assert_eq!(map.functions(IntegralModId(7)), None);
}

#[test]
fn nothing_is_added_twice() {
    let mut map = sample();
    assert_eq!(
        map.add_module(IntegralModId(1), "again".to_owned()),
        Err(Error::DuplicateModule(IntegralModId(1)))
    );
    assert_eq!(
        map.add_function(uid(1, 9), "again".to_owned(), vec![]),
        Err(Error::DuplicateFunction(uid(1, 9)))
    );
    assert_eq!(
        map.add_function(uid(8, 9), "lost".to_owned(), vec![]),
        Err(Error::UnknownModule(IntegralModId(8)))
    );
}

#[test]
fn selection_keeps_the_selected_functions() {
    match mask_fn_selection(&[uid(1, 4), uid(2, 9)], sample()) {
        Ok(masked) => {
            assert_eq!(masked.functions(IntegralModId(1)), Some(vec![IntegralFnId(4)]));
            assert_eq!(masked.functions(IntegralModId(2)), Some(vec![IntegralFnId(9)]));
            assert_eq!(masked.get_function_name(uid(1, 9)), None);
            assert_eq!(masked.get_function_name(uid(1, 4)), Some(&"h".to_owned()));
        },
        Err(_) => panic!("all of these are known"),
    }
    match mask_fn_selection(&[uid(1, 4), uid(1, 5)], sample()) {
        Ok(_) => panic!("one of these is not known"),
        Err(e) => assert_eq!(e, Error::UnknownFunction(uid(1, 5))),
    }
}

#[test]
fn functions_are_tested_module_by_module() {
    assert_eq!(functions_to_test(&sample()), vec![uid(2, 9), uid(1, 9), uid(1, 4)]);
}
