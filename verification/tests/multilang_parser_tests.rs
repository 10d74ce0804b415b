use automatised_pipeline::parser::python::parse_python_file;
use automatised_pipeline::parser::typescript::parse_typescript_file;
use automatised_pipeline::parser::{parse_file, Language};

#[test]
fn test_parse_simple_python() {
    let src = r#"
import os
from pathlib import Path
from typing import *

MAX_SIZE = 100
_PRIVATE = "hidden"

def greet(name: str) -> str:
    return f"Hello, {name}"

async def fetch_data(url):
    pass

class Animal:
    def __init__(self, name):
        self.name = name

    def speak(self):
        pass

class Dog(Animal):
    def speak(self):
        return "Woof"
"#;
    let result = parse_python_file(src, "test.py").expect("parse should succeed");
    let labels: Vec<&str> = result.nodes.iter().map(|n| n.label.as_str()).collect();
    let names: Vec<&str> = result.nodes.iter().map(|n| n.name.as_str()).collect();

    assert!(labels.contains(&"Function"), "missing Function");
    assert!(names.contains(&"greet"), "missing greet function");
    assert!(names.contains(&"fetch_data"), "missing fetch_data function");
    assert!(labels.contains(&"Struct"), "missing Struct (class)");
    assert!(names.contains(&"Animal"), "missing Animal class");
    assert!(names.contains(&"Dog"), "missing Dog class");
    assert!(labels.contains(&"Method"), "missing Method");
    assert!(names.contains(&"__init__"), "missing __init__ method");
    assert!(names.contains(&"speak"), "missing speak method");
    assert!(labels.contains(&"Import"), "missing Import");
    assert!(labels.contains(&"Constant"), "missing Constant");
    assert!(names.contains(&"MAX_SIZE"), "missing MAX_SIZE constant");

    let fetch = result.nodes.iter().find(|n| n.name == "fetch_data").unwrap();
    let is_async = fetch.properties.iter().find(|(k, _)| k == "is_async").unwrap();
    assert_eq!(is_async.1, "true");

    let extends = result.refs.iter().any(|r| r.kind == "Extends" && r.from_qualified_name.contains("Dog"));
    assert!(extends, "missing Extends edge for Dog");

    let glob_import = result.nodes.iter()
        .any(|n| n.label == "Import" && n.properties.iter().any(|(k, v)| k == "is_glob" && v == "true"));
    assert!(glob_import, "missing glob import for 'from typing import *'");
}

#[test]
fn test_python_import_normalization() {
    let src = r#"
import os.path
from collections.abc import Mapping
"#;
    let result = parse_python_file(src, "test.py").expect("parse");
    let imports: Vec<_> = result.nodes.iter().filter(|n| n.label == "Import").collect();
    let has_normalized = imports.iter().any(|n| n.properties.iter().any(|(k, v)| k == "path" && v == "os::path"));
    assert!(has_normalized, "import paths should be normalized to :: separator");
}

#[test]
fn python_repeated_names_get_line_suffixes() {
    let src = "class C:\n    @property\n    def x(self):\n        return 1\n    @x.setter\n    def x(self, v):\n        pass\n";
    let result = parse_python_file(src, "m.py").expect("parse");
    let qns: Vec<&str> = result.nodes.iter().filter(|n| n.label == "Method").map(|n| n.qualified_name.as_str()).collect();
    assert_eq!(qns, vec!["m.py::C::x", "m.py::C::x@6"]);
    let first = result.nodes.iter().find(|n| n.qualified_name == "m.py::C::x").unwrap();
    assert!(first.properties.iter().any(|(k, v)| k == "decorators" && v == "property"));
    assert!(first.properties.iter().any(|(k, v)| k == "receiver_type" && v == "m.py::C"));
}

#[test]
fn python_call_sites_carry_byte_spans() {
    let src = "def main():\n    helper()\n";
    let result = parse_python_file(src, "m.py").expect("parse");
    let cs = result.nodes.iter().find(|n| n.label == "CallSite").expect("call site");
    assert_eq!(cs.qualified_name, "m.py::main::call@2:4#16-24");
    assert_eq!(cs.name, "helper");
}

#[test]
fn test_python_parser_standalone() {
    let src = r#"
import os
from pathlib import Path

MAX_SIZE = 100

def greet(name: str) -> str:
    return f"Hello, {name}"

class Animal:
    def __init__(self, name):
        self.name = name

    def speak(self):
        pass

class Dog(Animal):
    def speak(self):
        return "Woof"
"#;
    let result = parse_file(src, "test.py", Language::Python).expect("parse should succeed");
    let count = |l: &str| result.nodes.iter().filter(|n| n.label == l).count();
    assert!(count("Function") >= 1, "should find functions");
    assert!(count("Struct") >= 2, "should find classes (Animal, Dog)");
    assert!(count("Method") >= 3, "should find methods");
    assert!(count("Import") >= 2, "should find imports");
    assert!(count("Constant") >= 1, "should find constant MAX_SIZE");
    let extends = result.refs.iter().any(|r| r.kind == "Extends" && r.from_qualified_name.contains("Dog"));
    assert!(extends, "Dog should extend Animal");
}

const TS_SAMPLE: &str = r#"
import { Router } from 'express';
import * as fs from 'fs';

export const MAX_RETRIES = 3;

export function greet(name: string): string {
    return `Hello, ${name}`;
}

export async function fetchData(url: string): Promise<Response> {
    return fetch(url);
}

export const handler = (req: Request) => {
    greet("world");
};

export class Animal {
    public name: string;
    private age: number;

    constructor(name: string) {
        this.name = name;
    }

    speak(): string {
        return "";
    }
}

export class Dog extends Animal {
    speak(): string {
        return "Woof";
    }
}

export interface Serializable {
    serialize(): string;
    readonly id: number;
}

export enum Color {
    Red = "RED",
    Green = "GREEN",
    Blue = "BLUE",
}

export type StringOrNumber = string | number;
"#;

#[test]
fn test_parse_simple_typescript() {
    let result = parse_typescript_file(TS_SAMPLE, "test.ts").expect("parse should succeed");
    let labels: Vec<&str> = result.nodes.iter().map(|n| n.label.as_str()).collect();
    let names: Vec<&str> = result.nodes.iter().map(|n| n.name.as_str()).collect();

    assert!(labels.contains(&"Function"), "missing Function");
    assert!(names.contains(&"greet"), "missing greet");
    assert!(names.contains(&"fetchData"), "missing fetchData");
    assert!(names.contains(&"handler"), "missing handler (arrow fn)");
    assert!(labels.contains(&"Struct"), "missing Struct (class)");
    assert!(names.contains(&"Animal"), "missing Animal");
    assert!(names.contains(&"Dog"), "missing Dog");
    assert!(labels.contains(&"Trait"), "missing Trait (interface)");
    assert!(names.contains(&"Serializable"), "missing Serializable");
    assert!(labels.contains(&"Enum"), "missing Enum");
    assert!(names.contains(&"Color"), "missing Color");
    assert!(labels.contains(&"TypeAlias"), "missing TypeAlias");
    assert!(names.contains(&"StringOrNumber"), "missing StringOrNumber");
    assert!(labels.contains(&"Method"), "missing Method");
    assert!(labels.contains(&"Field"), "missing Field");
    assert!(labels.contains(&"Import"), "missing Import");
    assert!(labels.contains(&"Constant"), "missing Constant");
    assert!(names.contains(&"MAX_RETRIES"), "missing MAX_RETRIES");

    let fetch_fn = result.nodes.iter().find(|n| n.name == "fetchData").unwrap();
    let is_async = fetch_fn.properties.iter().find(|(k, _)| k == "is_async").unwrap();
    assert_eq!(is_async.1, "true");

    let greet_fn = result.nodes.iter().find(|n| n.name == "greet").unwrap();
    assert_eq!(greet_fn.visibility, "pub");

    let extends = result.refs.iter().any(|r| r.kind == "Extends" && r.from_qualified_name.contains("Dog"));
    assert!(extends, "missing Extends edge for Dog");
}

#[test]
fn test_typescript_imports() {
    let src = r#"
import { foo, bar as baz } from './module';
import * as utils from '../utils';
import defaultExport from 'package';
"#;
    let result = parse_typescript_file(src, "test.ts").expect("parse");
    let imports: Vec<_> = result.nodes.iter().filter(|n| n.label == "Import").collect();
    assert!(imports.len() >= 3, "expected at least 3 imports, got {}", imports.len());
    let has_normalized = imports.iter().any(|n| n.properties.iter().any(|(k, v)| k == "path" && v.contains("::")));
    assert!(has_normalized, "import paths should be normalized to :: separator");
    let names: Vec<&str> = imports.iter().map(|n| n.name.as_str()).collect();
    assert_eq!(names, vec![".::module::foo", "baz", "utils", "defaultExport"]);
}

#[test]
fn test_typescript_parser_standalone() {
    let result = parse_file(TS_SAMPLE, "test.ts", Language::TypeScript).expect("parse should succeed");
    let count = |l: &str| result.nodes.iter().filter(|n| n.label == l).count();
    assert!(count("Function") >= 1);
    assert!(count("Struct") >= 2);
    assert!(count("Trait") >= 1);
    assert!(count("Enum") >= 1);
    assert!(count("TypeAlias") >= 1);
    assert!(count("Import") >= 1);
    assert!(count("Constant") >= 1);
    let extends = result.refs.iter().any(|r| r.kind == "Extends" && r.from_qualified_name.contains("Dog"));
    assert!(extends, "Dog should extend Animal");
}

#[test]
fn parse_file_dispatches_on_language() {
    let r = parse_file("fn a() {}", "a.rs", Language::Rust).expect("rust");
    assert_eq!(r.nodes[0].qualified_name, "a.rs::a");
    let r = parse_file("def a():\n    pass\n", "a.py", Language::Python).expect("python");
    assert_eq!(r.nodes[0].qualified_name, "a.py::a");
    match parse_file("x", "a.swift", Language::Swift) {
        Ok(_) => panic!("no swift front end"),
        Err(e) => assert_eq!(e, "no parser for language: swift"),
    }
}
