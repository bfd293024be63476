//! Why mutation in the presence of aliasing is ruled out: a borrow into one
//! variant's payload pins the whole tagged value, since reassigning the value
//! to the other variant would leave the borrow pointing into freed storage.

use vstd::prelude::*;

verus! {

/// A tagged value holding either a number or a piece of text.
#[allow(dead_code)]
enum Variant {
    Number(i32),
    Text(String),
}

/// Takes the number out of `var` and overwrites it; on the text variant
/// there is nothing to overwrite and the function returns at once. While a
/// copy of the payload is being worked on, `var` itself could safely be
/// reassigned; a live borrow into the payload would forbid exactly that.
#[allow(dead_code)]
fn work_on_variant(var: Variant, text: String) {
    let mut num: i32;
    match var {
        Variant::Number(n) => {
            num = n;
        },
        Variant::Text(_) => {
            return;
        },
    }
    num = 1337;
    assert(num == 1337);
}

} // verus!
