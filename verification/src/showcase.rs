use vstd::prelude::*;

verus! {

/// The fixed greeting line that the demonstration opens with.
pub fn greeting() -> (r: &'static str)
    ensures
        r@ == "Hello from Rust!"@,
{
    "Hello from Rust!"
}

/// Adds its two summands; the demonstration feeds it 10 and 20.
pub fn sum(a: i32, b: i32) -> (r: i32)
    requires
        i32::MIN <= a + b <= i32::MAX,
    ensures
        r == a + b,
{
    a + b
}

/// The language names in display order.
pub open spec fn language_names() -> Seq<Seq<char>> {
    seq!["Rust"@, "Python"@, "JavaScript"@, "Java"@, "Go"@]
}

/// The fixed, ordered catalogue of language names.
pub fn languages() -> (r: Vec<&'static str>)
    ensures
        r@.len() == language_names().len(),
        forall|j: int| 0 <= j < r@.len() ==> r@[j]@ == language_names()[j],
{
    let mut v: Vec<&'static str> = Vec::new();
    v.push("Rust");
    v.push("Python");
    v.push("JavaScript");
    v.push("Java");
    v.push("Go");
    v
}

/// Each language name paired with its 1-based ordinal, in display order.
pub fn numbered_languages() -> (r: Vec<(usize, &'static str)>)
    ensures
        r@.len() == language_names().len(),
        forall|j: int| 0 <= j < r@.len() ==> #[trigger] r@[j].0 == j + 1,
        forall|j: int| 0 <= j < r@.len() ==> #[trigger] r@[j].1@ == language_names()[j],
{
    let names = languages();
    let mut v: Vec<(usize, &'static str)> = Vec::new();
    let mut i: usize = 0;
    while i < names.len()
        invariant
            i <= names@.len(),
            names@.len() == language_names().len(),
            forall|j: int| 0 <= j < names@.len() ==> names@[j]@ == language_names()[j],
            v@.len() == i,
            forall|j: int| 0 <= j < i ==> #[trigger] v@[j].0 == j + 1,
            forall|j: int| 0 <= j < i ==> #[trigger] v@[j].1@ == language_names()[j],
        decreases names@.len() - i,
    {
        v.push((i + 1, names[i]));
        i = i + 1;
    }
    v
}

} // verus!
