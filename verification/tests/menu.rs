use freya::menu::{close_menus_until, push_menu, root_menu, MenuId};

#[test]
fn closing_keeps_the_menus_up_to_the_hovered_one() {
    let mut menus = vec![root_menu(), MenuId(2), MenuId(5), MenuId(3)];
    close_menus_until(&mut menus, MenuId(3));
    assert_eq!(menus, vec![MenuId(0), MenuId(2), MenuId(3)]);
    close_menus_until(&mut menus, root_menu());
    assert_eq!(menus, vec![MenuId(0)]);
}

#[test]
fn opening_a_menu_twice_keeps_one() {
    let mut menus = vec![MenuId(0)];
    push_menu(&mut menus, MenuId(4));
    push_menu(&mut menus, MenuId(4));
    assert_eq!(menus, vec![MenuId(0), MenuId(4)]);
}
