use awsm_markdown_renderer::render_markdown;

#[test]
fn test_invalid_latex_no_panic() {
    let inputs = vec![
        "$\\invalidcommand$",
        "$\\frac{x$",
        "$}}}{{{$",
        "$\\$",
        "$$\\begin{invalid}$$",
        "$E=mc^2$",
    ];

    for input in &inputs {
        let html = render_markdown(input);
        assert!(!html.is_empty(), "Output should not be empty for: {}", input);
    }
}

#[test]
fn test_valid_latex_renders_mathml() {
    let input = "$E=mc^2$";
    let html = render_markdown(input);
    assert!(
        html.contains("<math") || html.contains("mathml"),
        "Valid LaTeX should render as MathML, got: {}",
        html
    );
    assert!(!html.contains("math-error"), "Valid LaTeX should not produce error span");
}

#[test]
fn test_math_code_block_renders() {
    let input = "```math\nE=mc^2\n```";
    let html = render_markdown(input);
    assert!(
        html.contains("<math") || html.contains("mathml"),
        "Math code block should render as MathML, got: {}",
        html
    );
}
