use std::time::Instant;
use storytell::compiler::base::compile_str;
use storytell::compiler::json_compiler::{JSONCompilerContext, JSONCompilerProvider};

#[test]
fn mod_compile() {
    let before = Instant::now();
    let (result, diagnostics, ctx) = compile_str::<JSONCompilerProvider>("
# Hello, World!
How's it going on this {a += 1} {b += 5; c.push(123); c.pop(); v = d = 33}? `Test!`

```js
console.log(`Some code ${123}`);
```
Hello!

## This is a subpath...

#[SomeAttribute(123, 456, 789)]
- This is a choice group!
    {killed += n}
    {saved -= 1}
- Second choice 
    -> hello_world
    @{`Some magic string $(my_var + 1) and $(my_var + 2)...`}
    - {true}
        This condition is true...
    - {false}
        This condition is false...

{killed = c}
{e.b.c.d += 1}
{e.b.c.d}
", JSONCompilerContext::new(None), 1);
    println!("Parsing took {} nanoseconds", before.elapsed().as_nanos());
    println!("[{}] {:?} {:?}", result.join(","), diagnostics, ctx.variables);
}
