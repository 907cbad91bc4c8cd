use kew::interface::{declarations_valid, emit_interface, parse_declarations};

const TYPES: &str = "/* tslint:disable */\nexport class Fifo {\n  free(): void;\n  constructor();\n  _run(): void;\n  rate: number;\n  capacity: number;;\n}\nexport class Empty {\n}\n";

#[test]
fn reads_classes_and_properties() {
    let lines: Vec<&str> = TYPES.lines().collect();
    let classes = parse_declarations(&lines);
    assert_eq!(classes.len(), 2);
    assert_eq!(classes[0].0, "Fifo");
    assert_eq!(
        classes[0].1,
        vec![("rate".to_string(), "number".to_string()), ("capacity".to_string(), "number".to_string())]
    );
    assert_eq!(classes[1].0, "Empty");
    assert!(classes[1].1.is_empty());
}

#[test]
fn checks_class_declarations() {
    assert!(declarations_valid(TYPES));
    assert!(!declarations_valid("export class Broken\n"));
    assert!(declarations_valid(""));
}

#[test]
fn writes_a_hook_per_class() {
    let out = emit_interface(TYPES, "fifo");
    let expected_head = "// @ts-nocheck\nimport * as wasm from \"./fifo/build.js\";\nimport { useMemo as _useMemo, useEffect as _useEffect, useState as _useState } from 'react';\nimport { throttle as throttle } from 'throttle-debounce';\n\n";
    assert!(out.starts_with(expected_head));
    assert!(!out.contains("free"));
    let fifo = "export class Fifo extends wasm.Fifo {\n}\n\nexport interface FifoProps {\n  rate: number;\n  capacity: number;\n}\n\nexport function useFifo(props: FifoProps): Fifo {\n  const [_gen, _set_gen] = _useState(0);\n  const _instance = _useMemo(() => {\n    const i = new wasm.Fifo() as Fifo;\n    let _gen = 0;\n    const _run = i._run;\n    i.run = throttle(500, run);\n    function run(\n      rate: number, \n      capacity: number, \n    ) {{\n      this.rate = rate;\n      this.capacity = capacity;\n      const _ret = _run.call(this);\n      _gen += 1;\n      _set_gen(_gen);\n      return _ret;\n    }}\n    return i;\n  }, []);\n  \n  _useEffect(() => _instance.run(\n      props.rate,\n      props.capacity,\n  ), [\n    props.rate,\n    props.capacity,\n  ]);\n  \n  return _instance;\n}\n\n";
    assert!(out[expected_head.len()..].starts_with(fifo));
    assert!(out.ends_with("export function useEmpty(props: EmptyProps): Empty {\n  const [_gen, _set_gen] = _useState(0);\n  const _instance = _useMemo(() => {\n    const i = new wasm.Empty() as Empty;\n    let _gen = 0;\n    const _run = i._run;\n    i.run = throttle(500, run);\n    function run(\n    ) {{\n      const _ret = _run.call(this);\n      _gen += 1;\n      _set_gen(_gen);\n      return _ret;\n    }}\n    return i;\n  }, []);\n  \n  _useEffect(() => _instance.run(\n  ), [\n  ]);\n  \n  return _instance;\n}\n\n"));
}
