use compost::run::run_code;

const PRELUDE: &str = "
mod Op
    traits
        Add: (rhs: Self) -> Self
        Sub: (rhs: Self) -> Self
        Mul: (rhs: Self) -> Self
        Div: (rhs: Self) -> Self
        Neg: Self
        Eq: (rhs: Self) -> Bool
        Lt: (rhs: Self) -> Bool
        Gt: (rhs: Self) -> Bool
        And: (rhs: Self) -> Self
        Or: (rhs: Self) -> Self

mod String
    struct
        value: string
    defs
        Op\\Add: String(value: value + rhs.value)
        Op\\Eq: Bool(value: value = rhs.value)
        String: Self

mod Int
    struct
        value: int
    defs
        Op\\Add: Int(value: value + rhs.value)
        Op\\Sub: Int(value: value - rhs.value)
        Op\\Mul: Int(value: value * rhs.value)
        Op\\Div: Int(value: value / rhs.value)
        Op\\Neg: Int(value: -value)
        Op\\Eq: Bool(value: value = rhs.value)
        Op\\Lt: Bool(value: value < rhs.value)
        Op\\Gt: Bool(value: value > rhs.value)
        String: value.String

mod Bool
    struct
        value: bool
    defs
        Op\\Eq: Bool(value: value = rhs.value)
        Op\\And: Bool(value: value & rhs.value)
        Op\\Or: Bool(value: value | rhs.value)
        String: if value then String(value: 'true') else String(value: 'false')
        Bool: Self
";

fn run_file(code: &str) -> String {
    run_code(PRELUDE, code, 10_000)
}

#[test]
fn test_automatic_definitions() {
    // A rectangle is given by its size or by its corners; what is not given
    // comes from the definitions of the module that declares the traits.
    let code = "
mod Rect
    traits
        Left: Int
        Top: Int
        Right: Int
        Bottom: Int
        Width: Int
        Height: Int
    defs
        Right: .Left + .Width
        Bottom: .Top + .Height
        Width: .Right - .Left
        Height: .Bottom - .Top

mod Sized
    class
        left: Int
        top: Int
        width: Int
        height: Int
    defs
        Rect\\Left: left
        Rect\\Top: top
        Rect\\Width: width
        Rect\\Height: height

mod Cornered
    class
        left: Int
        top: Int
        right: Int
        bottom: Int
    defs
        Rect\\Left: left
        Rect\\Top: top
        Rect\\Right: right
        Rect\\Bottom: bottom

lets
    A: Sized
        Sized(left: 10, top: 5, width: 20, height: 10)
    B: Cornered
        Cornered(left: 0, top: 0, right: 5, bottom: 10)
    Main: String
        'BottomRight of A: ' + A.Right.String + ', ' + A.Bottom.String + '. Width and Height of B: ' + B.Width.String + ', ' + B.Height.String
";
    assert_eq!(
        run_file(code),
        "BottomRight of A: 30, 15. Width and Height of B: 5, 10",
    )
}

#[test]
fn test_class_inheritance() {
    let code = "
mod Animal
    traits
        Legs: Int
        Speed: Int
    defs
        Speed: .Legs * 25

mod Dog
    class
        name: String
    defs
        Animal\\Legs: 4

lets
    Main: Int
        Dog(name: 'Rex').Speed
";
    assert_eq!(run_file(code), "100")
}

#[test]
fn test_classes() {
    let code = "
mod Point
    class
        x: Int
        y: Int
    defs
        String: 'There is no way to output this point'

lets
    Main: Point
        Point(x: 1, y: 2)
";
    assert_eq!(run_file(code), "There is no way to output this point",)
}

#[test]
fn test_functions_and_constants() {
    let code = "
lets
    Ten: Int
        10
    Double: (x: Int) -> Int
        x * 2
    AddTen: (x: Int) -> Int
        x + Ten
    Main: Int
        Double(x: AddTen(x: 16))
";
    assert_eq!(run_file(code), "52")
}

#[test]
fn test_traits_and_definitions() {
    let code = "
mod Vector
    class
        x: Int
        y: Int
    traits
        X: Int
        Y: Int
        Flipped: Vector
    defs
        X: x
        Y: y
        Flipped: Vector(x: -x, y: -y)
        String: .X.String + ', ' + .Y.String

lets
    Main: Vector
        Vector(x: 1, y: 2).Flipped
";
    assert_eq!(run_file(code), "-1, -2",)
}

#[test]
fn test_types() {
    let code = "
mod Named
    traits
        Name: String
        Greeting: String
    defs
        Greeting: 'Hello, ' + .Name

mod Person
    class
        name: String
        age: Int
    traits
        Age: Int
    defs
        Named\\Name: name
        Age: age

mod Pet
    class
        name: String
        age: Int
    traits
        Years: Int
    defs
        Named\\Name: name
        Years: age

lets
    Describe: (who: Person | Pet) -> String
        match w who
            Person w.Name + ' (' + w.Age.String + ')'
            Pet w.Name + ' (' + w.Years.String + ')'
    Bob: Person
        Person(name: 'Bob', age: 20)
    Fifi: Pet
        Pet(name: 'Fifi', age: 3)
    Main: String
        Bob.Greeting + '. ' + Fifi.Greeting + '. ' + Describe(who: Bob) + '. ' + Describe(who: Fifi)
";
    assert_eq!(run_file(code), "Hello, Bob. Hello, Fifi. Bob (20). Fifi (3)",)
}

#[test]
fn test_linked_list() {
    let code = "
mod List
    traits
        IsEmpty: Bool
        Total: Int
        Text: String
        Append: (other: List) -> List
        Reversed: List

mod Empty
    class
        nothing: ?
    defs
        List\\IsEmpty: true
        List\\Total: 0
        List\\Text: ''
        List\\Append: other
        List\\Reversed: Self

mod Node
    class
        head: Int
        tail: List
    defs
        List\\IsEmpty: false
        List\\Total: head + tail.Total
        List\\Text: if tail.IsEmpty then head.String else head.String + ', ' + tail.Text
        List\\Append: Node(head: head, tail: tail.Append(other: other))
        List\\Reversed: tail.Reversed.Append(other: Node(head: head, tail: Empty(nothing: ?)))

lets
    Numbers: List
        Node(head: 1, tail: Node(head: 2, tail: Node(head: 3, tail: Node(head: 4, tail: Empty(nothing: ?)))))
    Show: (list: List) -> String
        list.Text + ' (total: ' + list.Total.String + ')'
    Main: String
        Show(list: Numbers) + '. Reversed: ' + Show(list: Numbers.Reversed) + '. Together: ' + Show(list: Numbers.Append(other: Numbers.Reversed))
";
    assert_eq!(
        run_file(code),
        "1, 2, 3, 4 (total: 10). Reversed: 4, 3, 2, 1 (total: 10). Together: 1, 2, 3, 4, 4, 3, 2, 1 (total: 20)",
    )
}

#[test]
fn test_multiple_inheritance() {
    let code = "
mod Animal
    traits
        Kind: String
        Label: String
    defs
        Label: ' (species: ' + .Kind + ')'

mod Offspring
    traits
        Parent: String
        Title: String
    defs
        Title: 'Child of ' + .Parent

mod Pup
    class
        parent: String
        kind: String
    defs
        Animal\\Kind: kind
        Offspring\\Parent: parent
        String: .Title + .Label

lets
    Main: Pup
        Pup(parent: 'Perry', kind: 'Platypus')
";
    assert_eq!(run_file(code), "Child of Perry (species: Platypus)",)
}

#[test]
fn test_if() {
    let code = "
lets
    IsBig: (x: Int) -> Bool
        x > 10
    Main: String
        if IsBig(x: 52) then 'Yes' else 'No'
";
    assert_eq!(run_file(code), "Yes")
}

#[test]
fn test_binary_tree() {
    let code = "
mod Tree
    traits
        Text: String

mod Leaf
    class
        value: Int
    defs
        Tree\\Text: value.String

mod Branch
    class
        left: Tree
        value: Int
        right: Tree
    defs
        Tree\\Text: left.Text + ' ' + value.String + ' ' + right.Text

lets
    Main: String
        Branch(left: Leaf(value: 3), value: -1, right: Leaf(value: 2)).Text
";
    assert_eq!(run_file(code), "3 -1 2")
}
