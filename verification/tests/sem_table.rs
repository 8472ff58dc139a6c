use compost::error::ErrorMessage;
use compost::sem::table::{path, Table};

#[test]
fn test() {
    let mut table = Table::new("Integer");

    table.declare("Mod\\Thing", 1).unwrap();
    table.declare("Mod", 2).unwrap();

    assert_eq!(table.get(table.resolve("Thing", "").unwrap()), &1);
    assert_eq!(table.get(table.resolve("Mod", "").unwrap()), &2);
}

#[test]
fn table_declaring_twice_fails() {
    let mut table = Table::new("Integer");

    assert_eq!(table.declare("Mod\\Thing", 1).unwrap(), 0);
    let error = table.declare("Mod\\Thing", 2).unwrap_err();
    assert_eq!(
        error.message,
        ErrorMessage::DoubleDeclaration("Integer", "Mod\\Thing".to_string())
    );
    assert_eq!(error.context, None);
    // The same path written with an empty segment is the same declaration.
    assert!(table.declare("\\Mod\\\\Thing", 3).is_err());
    assert_eq!(table.len(), 1);
}

#[test]
fn table_prefers_shorter_paths_and_scopes() {
    let mut table = Table::new("Trait");
    let add = table.declare("Add", 'a').unwrap();
    let op_add = table.declare("Op\\Add", 'b').unwrap();

    assert_eq!(table.resolve("Add", "").unwrap(), add);
    assert_eq!(table.resolve("Add", "Op").unwrap(), op_add);
    // Not available inside the scope: the global search is tried.
    assert_eq!(table.resolve("Add", "Other").unwrap(), add);

    let error = table.resolve("Sub", "Op").unwrap_err();
    assert_eq!(
        error.message,
        ErrorMessage::NoResolution("Trait", "Sub".to_string())
    );
}

#[test]
fn table_resolves_wildcards_in_order() {
    let mut table = Table::new("Trait");
    table.declare("Op\\Add", 1).unwrap();
    table.declare("Other\\Add", 2).unwrap();
    table.declare("Op", 3).unwrap();
    table.declare("Op\\Sub", 4).unwrap();

    assert_eq!(table.resolve_wildcard("Op").unwrap(), vec![0, 3]);
    assert_eq!(table.resolve_wildcard("Nothing").unwrap(), Vec::<usize>::new());
}

#[test]
fn table_replace_keeps_the_path() {
    let mut table = Table::new("Let");
    let id = table.declare("Mod\\Thing", 1).unwrap();
    table.replace(id, 7);
    assert_eq!(table.get(table.resolve("Thing", "Mod").unwrap()), &7);
}

#[test]
fn path_drops_empty_segments() {
    assert_eq!(path("Mod\\Thing"), vec!["Mod".to_string(), "Thing".to_string()]);
    assert_eq!(path("\\Mod\\\\Thing\\"), vec!["Mod".to_string(), "Thing".to_string()]);
    assert_eq!(path(""), Vec::<String>::new());
}
