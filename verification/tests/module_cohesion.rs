use tsmetrics::metrics::module::cohesion::{compute_module_cohesion, ModuleCohesion};
use tsmetrics::parse::parse_typescript;

fn mc_for(src: &str) -> ModuleCohesion {
    let tree = parse_typescript(src).expect("parse failed");
    compute_module_cohesion(&tree)
}

/// MC = connected / total pairs, 1.0 with fewer than two exports.
fn mc(r: &ModuleCohesion) -> f64 {
    if r.export_count <= 1 || r.total_pairs == 0 {
        1.0
    } else {
        r.connected_pairs as f64 / r.total_pairs as f64
    }
}

#[test]
fn test_fully_cohesive_module() {
    let src = r#"
import { logger } from './logger';

export function greet(name: string): void {
logger.info(`Hello ${name}`);
}

export function farewell(name: string): void {
logger.info(`Goodbye ${name}`);
}
"#;
    let result = mc_for(src);
    assert_eq!(result.export_count, 2);
    assert_eq!(result.total_pairs, 1);
    assert_eq!(result.connected_pairs, 1);
    assert!(
        (mc(&result) - 1.0).abs() < 1e-9,
        "expected MC=1.0, got {}",
        mc(&result)
    );
}

// ── Non-cohesive (MC = 0.0) ────────────────────────────────────────────

/// `processOrder` uses only `db`; `formatEmail` uses only `emailClient`.
/// No shared import source → MC = 0.0
#[test]
fn test_non_cohesive_module() {
    let src = r#"
import { db } from './database';
import { emailClient } from './email';

export function processOrder(id: number): void {
db.query(id);
}

export function formatEmail(to: string): string {
return emailClient.format(to);
}
"#;
    let result = mc_for(src);
    assert_eq!(result.export_count, 2);
    assert_eq!(result.total_pairs, 1);
    assert_eq!(result.connected_pairs, 0);
    assert!(
        (mc(&result) - 0.0).abs() < 1e-9,
        "expected MC=0.0, got {}",
        mc(&result)
    );
}

// ── Partially cohesive (MC = 2/3) ─────────────────────────────────────

/// Three exports: `foo` uses `[a]`, `bar` uses `[b]`, `baz` uses `[a, b]`.
/// Pairs: (foo,bar) ✗  (foo,baz) ✓  (bar,baz) ✓
/// connected=2, total=3, MC=2/3
#[test]
fn test_partially_cohesive_module() {
    let src = r#"
import { a } from './moduleA';
import { b } from './moduleB';

export function foo(): void {
a();
}

export function bar(): void {
b();
}

export function baz(): void {
a();
b();
}
"#;
    let result = mc_for(src);
    assert_eq!(result.export_count, 3);
    assert_eq!(result.total_pairs, 3);
    assert_eq!(result.connected_pairs, 2);
    assert!(
        (mc(&result) - 2.0 / 3.0).abs() < 1e-9,
        "expected MC=2/3, got {}",
        mc(&result)
    );
}

// ── Single export → MC = 1.0 (vacuous) ────────────────────────────────

#[test]
fn test_single_export_vacuous_cohesion() {
    let src = r#"
import { helper } from './utils';

export function doSomething(): void {
helper();
}
"#;
    let result = mc_for(src);
    assert_eq!(result.export_count, 1);
    assert_eq!(result.total_pairs, 0);
    assert_eq!(result.connected_pairs, 0);
    assert!(
        (mc(&result) - 1.0).abs() < 1e-9,
        "single export → MC=1.0, got {}",
        mc(&result)
    );
}

// ── Barrel file (re-exports only) → MC = 1.0 ──────────────────────────

/// A barrel file with only `export { ... } from '...'` has no bodies to
/// scan, so export_count = 0 → MC = 1.0 vacuously.
#[test]
fn test_barrel_file_no_bodies() {
    let src = r#"
export { foo } from './foo';
export { bar } from './bar';
export { baz } from './baz';
"#;
    let result = mc_for(src);
    assert_eq!(result.export_count, 0);
    assert_eq!(result.total_pairs, 0);
    assert!(
        (mc(&result) - 1.0).abs() < 1e-9,
        "barrel file → MC=1.0, got {}",
        mc(&result)
    );
}

// ── Arrow function exports ─────────────────────────────────────────────

#[test]
fn test_arrow_function_exports() {
    let src = r#"
import { validate } from './validator';
import { transform } from './transformer';

export const process = (data: string) => {
const valid = validate(data);
return transform(valid);
};

export const check = (input: string) => {
return validate(input);
};
"#;
    let result = mc_for(src);
    assert_eq!(result.export_count, 2);
    assert_eq!(result.total_pairs, 1);
    // Both use `validate` from './validator'
    assert_eq!(result.connected_pairs, 1);
    assert!(
        (mc(&result) - 1.0).abs() < 1e-9,
        "expected MC=1.0, got {}",
        mc(&result)
    );
}

// ── No exports → MC = 1.0 ─────────────────────────────────────────────

#[test]
fn test_no_exports() {
    let src = r#"
import { something } from './somewhere';

function internal(): void {
something();
}
"#;
    let result = mc_for(src);
    assert_eq!(result.export_count, 0);
    assert_eq!(result.total_pairs, 0);
    assert!(
        (mc(&result) - 1.0).abs() < 1e-9,
        "no exports → MC=1.0, got {}",
        mc(&result)
    );
}

// ── No imports → MC = 0.0 for disjoint pure exports ───────────────────

/// Two exports with no imports — neither references any import source.
/// Both have empty source sets, so they are trivially disjoint: MC = 0.0.
#[test]
fn test_no_imports_two_exports() {
    let src = r#"
export function add(a: number, b: number): number {
return a + b;
}

export function subtract(a: number, b: number): number {
return a - b;
}
"#;
    let result = mc_for(src);
    assert_eq!(result.export_count, 2);
    assert_eq!(result.total_pairs, 1);
    assert_eq!(result.connected_pairs, 0);
    assert!(
        (mc(&result) - 0.0).abs() < 1e-9,
        "no shared imports → MC=0.0, got {}",
        mc(&result)
    );
}
