use awsm_markdown_renderer::render_markdown;

#[test]
fn test_basic_markdown() {
    let input = "# Hello\n\nThis is a paragraph.";
    let html = render_markdown(input);
    assert!(html.contains("<h1>Hello</h1>"));
    assert!(html.contains("<p>This is a paragraph.</p>"));
}

#[test]
fn test_gfm_features() {
    let input = "
| Header |
| ------ |
| Cell   |

- [x] Task
~~strike~~
";
    let html = render_markdown(input);
    assert!(html.contains("<table>"), "Should render tables");
    assert!(
        html.contains("type=\"checkbox\""),
        "Should render task lists"
    );
    assert!(html.contains("checked"), "Task should be checked");
    assert!(
        html.contains("<del>strike</del>"),
        "Should render strikethrough"
    );
}

#[test]
fn test_code_highlighting() {
    let input = "
```rust
fn main() {}
```
";
    let html = render_markdown(input);
    assert!(
        html.contains("class=\"language-rust\""),
        "Should have language class"
    );
    assert!(
        html.contains("<span class=\"source rust\">"),
        "Should have syntect classes"
    );
}

#[test]
fn test_unknown_language() {
    let input = "
```unknown-lang-123
some code
```
";
    let html = render_markdown(input);
    assert!(html.contains("class=\"language-unknown-lang-123\""));
    assert!(html.contains("some code"));
}

#[test]
fn test_math_inline() {
    let input = "Energy is $E=mc^2$.";
    let html = render_markdown(input);
    assert!(!html.contains("$E=mc^2$"));
    assert!(html.contains("<math"), "Should render MathML tag");
}

#[test]
fn test_math_block() {
    let input = r#"
$$
\int_0^\infty x^2 dx
$$
"#;
    let html = render_markdown(input);
    assert!(html.contains("<math"), "Should render MathML tag");
    assert!(
        html.contains("display=\"block\""),
        "Should be display block"
    );
}

#[test]
fn test_financial_amounts_edge_case() {
    let input = "The costs are $5 and $10 respectively.";
    let html = render_markdown(input);

    assert!(
        !html.contains("<math"),
        "Financial text '$5 and $10' should NOT be rendered as math"
    );
    assert!(html.contains("$5"), "Should preserve $5");
    assert!(html.contains("$10"), "Should preserve $10");
}

#[test]
fn test_complex_mixed_content() {
    let input = r#"
Here is some implementation:

```rust
let cost = "$100"; // string literal with dollar
```

And here is the formula: $x + y = z$.
"#;
    let html = render_markdown(input);

    assert!(html.contains("let"), "Code content 'let' missing");
    assert!(html.contains("cost"), "Code content 'cost' missing");

    assert!(html.contains("<math"), "Formula should render");
}

#[test]
fn test_multiple_inline_math_in_one_line() {
    let input = "If $a=1$ and $b=2$, then $c=3$.";
    let html = render_markdown(input);

    let matches: Vec<_> = html.match_indices("<math").collect();
    assert_eq!(matches.len(), 3, "Should render all 3 inline formulas");

    assert!(
        html.contains(" and "),
        "Text between formulas should be preserved"
    );
    assert!(
        html.contains(", then "),
        "Text between formulas should be preserved"
    );
}

#[test]
fn test_math_inside_formatting() {
    let input = "This is **$E=mc^2$** and [$x$](http://example.com).";
    let html = render_markdown(input);

    assert!(html.contains("<strong>"), "Should render bold");
    assert!(
        html.contains("<a href=\"http://example.com\">"),
        "Should render link"
    );
    assert!(
        html.contains("<math"),
        "Math inside formatting should render"
    );
}

#[test]
fn test_invalid_latex_handling() {
    let input = "This matches wrong: $\\frac{1$";
    let html = render_markdown(input);

    assert!(
        html.contains("math-error"),
        "Should render error span for invalid latex"
    );
    assert!(html.contains("color:red"), "Error should be styled (red)");
    assert!(
        !html.contains("<math"),
        "Invalid latex should not produce math tags"
    );
}

#[test]
fn test_unicode_and_chinese() {
    let input = "公式$x+y$的计算结果。";
    let html = render_markdown(input);

    assert!(html.contains("公式"), "Should preserve Chinese text before");
    assert!(
        html.contains("<math"),
        "Should render math adjacent to Chinese"
    );
    assert!(
        html.contains("的计算结果"),
        "Should preserve Chinese text after"
    );
}

#[test]
fn test_number_start_restriction() {
    let input = "Equation $1+1=2$ should be math, but $1/day $5/month is currency.";
    let html = render_markdown(input);

    assert!(
        html.contains("<math"),
        "Formulas with proper boundaries should render as math"
    );
    assert!(
        !html.contains("$1+1=2$"),
        "$1+1=2$ should be converted to math, not preserved as text"
    );

    assert!(
        html.contains("$5/month"),
        "Should preserve $5/month as currency"
    );
}

#[test]
fn test_jsx_code_block() {
    let input = r#"```jsx
function App() {
  return <div>Hello</div>;
}
```"#;
    let html = render_markdown(input);
    println!("\n=== JSX Input ===");
    println!("{}", input);
    println!("\n=== JSX Output ===");
    println!("{}", html);
    
    assert!(html.contains("language-jsx"), "Should have language-jsx class");
    
    let has_highlighting = html.contains("source") && !html.contains("text plain");
    println!("Has syntax highlighting: {}", has_highlighting);
}

#[test]
fn test_js_code_block() {
    let input = r#"```js
function hello() {
  return "world";
}
```"#;
    let html = render_markdown(input);
    println!("\n=== JS Input ===");
    println!("{}", input);
    println!("\n=== JS Output ===");
    println!("{}", html);
    
    assert!(html.contains("language-js"), "Should have language-js class");
}
