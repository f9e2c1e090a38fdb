use tsmetrics::metrics::react::jsx_nesting::max_jsx_nesting;

#[test]
fn no_jsx_returns_zero() {
    let src = "const x = 1;";
    assert_eq!(max_jsx_nesting(src).unwrap(), 0);
}

#[test]
fn single_self_closing_element_is_depth_zero() {
    // A self-closing element has no children, so it never opens a container
    // level. The result is 0 because `jsx_self_closing_element` is not a
    // `jsx_element` / `jsx_fragment` container.
    let src = "const el = <img />;";
    assert_eq!(max_jsx_nesting(src).unwrap(), 0);
}

#[test]
fn single_element_with_no_children_is_depth_one() {
    // <div></div> — one jsx_element, no nested JSX children.
    let src = "const el = <div></div>;";
    assert_eq!(max_jsx_nesting(src).unwrap(), 1);
}

// ── flat JSX ─────────────────────────────────────────────────────────────

#[test]
fn flat_siblings_are_depth_one() {
    // All children are self-closing; the root wrapper is depth 1.
    let src = r#"
        const el = (
            <div>
                <span />
                <span />
                <span />
            </div>
        );
    "#;
    assert_eq!(max_jsx_nesting(src).unwrap(), 1);
}

// ── nested JSX ────────────────────────────────────────────────────────────

#[test]
fn two_levels_of_nesting() {
    let src = r#"
        const el = (
            <div>
                <span></span>
            </div>
        );
    "#;
    assert_eq!(max_jsx_nesting(src).unwrap(), 2);
}

#[test]
fn deeply_nested_jsx_tree() {
    // 5 levels: div > section > article > ul > li
    let src = r#"
        function Component() {
            return (
                <div>
                    <section>
                        <article>
                            <ul>
                                <li>item</li>
                            </ul>
                        </article>
                    </section>
                </div>
            );
        }
    "#;
    assert_eq!(max_jsx_nesting(src).unwrap(), 5);
}

#[test]
fn max_is_taken_across_branches() {
    // left branch: 2 levels; right branch: 3 levels — max = 4
    let src = r#"
        const el = (
            <div>
                <span><em /></span>
                <section>
                    <article>
                        <p></p>
                    </article>
                </section>
            </div>
        );
    "#;
    assert_eq!(max_jsx_nesting(src).unwrap(), 4);
}

// ── fragments ─────────────────────────────────────────────────────────────

#[test]
fn fragment_counts_as_one_level() {
    // <>...</> is a jsx_fragment — counts as a nesting level.
    let src = r#"
        const el = (
            <>
                <div></div>
            </>
        );
    "#;
    assert_eq!(max_jsx_nesting(src).unwrap(), 2);
}

#[test]
fn nested_fragment_inside_element() {
    let src = r#"
        const el = (
            <div>
                <>
                    <span></span>
                </>
            </div>
        );
    "#;
    // div(1) > fragment(2) > span(3)
    assert_eq!(max_jsx_nesting(src).unwrap(), 3);
}

// ── conditional rendering ─────────────────────────────────────────────────

#[test]
fn conditional_rendering_counts_nested_jsx() {
    // The JSX inside the ternary is still reachable in the AST.
    let src = r#"
        function Component({ flag }) {
            return (
                <div>
                    {flag ? (
                        <section>
                            <p>yes</p>
                        </section>
                    ) : (
                        <span>no</span>
                    )}
                </div>
            );
        }
    "#;
    // div(1) > section(2) > p(3) — deeper branch wins
    assert_eq!(max_jsx_nesting(src).unwrap(), 3);
}

#[test]
fn logical_and_conditional() {
    let src = r#"
        function Component({ show }) {
            return (
                <div>
                    {show && (
                        <article>
                            <p></p>
                        </article>
                    )}
                </div>
            );
        }
    "#;
    // div(1) > article(2) > p(3)
    assert_eq!(max_jsx_nesting(src).unwrap(), 3);
}

// ── multiple components in a file ─────────────────────────────────────────

#[test]
fn takes_max_across_multiple_components() {
    // ComponentA has depth 2, ComponentB has depth 3.
    let src = r#"
        function ComponentA() {
            return <div><span></span></div>;
        }

        function ComponentB() {
            return (
                <div>
                    <section>
                        <p></p>
                    </section>
                </div>
            );
        }
    "#;
    assert_eq!(max_jsx_nesting(src).unwrap(), 3);
}
