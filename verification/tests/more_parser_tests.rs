use automatised_pipeline::parser::go::parse_go_file;
use automatised_pipeline::parser::java::parse_java_file;
use automatised_pipeline::parser::c::parse_c_file;
use automatised_pipeline::parser::cpp::parse_cpp_file;
use automatised_pipeline::parser::kotlin::parse_kotlin_file;
use automatised_pipeline::parser::objc::parse_objc_file;
use automatised_pipeline::parser::grammars::{progress_after, PARSE_TIMEOUT_MILLIS};
use automatised_pipeline::parser::{parse_file, ExtractedNode, Language, ParseResult};

const GO_SRC: &str = "package main\n\nimport (\n\t\"fmt\"\n\t\"net/http\"\n)\n\nconst MaxSize = 10\n\nvar count int\n\ntype Server struct {\n\taddr string\n}\n\ntype Handler interface {\n\tServe()\n}\n\ntype ID = string\n\nfunc main() {\n\tfmt.Println(\"hi\")\n}\n\nfunc (s *Server) Start() error {\n\treturn http.ListenAndServe(s.addr, nil)\n}\n";

const JAVA_SRC: &str = "package com.example;\n\nimport java.util.List;\nimport static java.lang.Math.max;\n\npublic class Dog extends Animal implements Runnable {\n    private int age = 3;\n    public Dog() {\n        super();\n    }\n    public void run() {\n        bark();\n        List<String> l = new ArrayList<>();\n    }\n}\ninterface Walker {\n    void walk();\n}\nenum Color { RED, GREEN }\n";

fn node<'a>(r: &'a ParseResult, qn: &str) -> &'a ExtractedNode {
    r.nodes.iter().find(|n| n.qualified_name == qn).unwrap_or_else(|| panic!("missing node {qn}"))
}

fn has_ref(r: &ParseResult, kind: &str, from: &str, to: &str) -> bool {
    r.refs.iter().any(|e| e.kind == kind && e.from_qualified_name == from && e.to_qualified_name == to)
}

#[test]
fn go_declarations_are_extracted() {
    let r = parse_go_file(GO_SRC, "main.go").expect("go parses");
    let fmt = node(&r, "main.go::import:fmt");
    assert_eq!(fmt.label, "Import");
    assert_eq!(fmt.name, "fmt");
    let http = node(&r, "main.go::import:net/http");
    assert_eq!(http.name, "http");
    assert_eq!(http.properties, vec![("target".to_string(), "net/http".to_string())]);
    assert!(has_ref(&r, "Imports", "main.go", "net/http"));

    let max = node(&r, "main.go::MaxSize");
    assert_eq!(max.label, "Constant");
    assert_eq!(max.visibility, "public");
    assert_eq!(max.start_line, 8);
    let count = node(&r, "main.go::count");
    assert_eq!(count.label, "Constant");
    assert_eq!(count.visibility, "package");

    assert_eq!(node(&r, "main.go::Server").label, "Struct");
    assert_eq!(node(&r, "main.go::Handler").label, "Trait");
    assert_eq!(node(&r, "main.go::ID").label, "TypeAlias");
    assert!(has_ref(&r, "Defines", "main.go", "main.go::Server"));
}

#[test]
fn go_functions_methods_and_calls_share_one_sequence() {
    let r = parse_go_file(GO_SRC, "main.go").expect("go parses");
    let main = node(&r, "main.go::main#1");
    assert_eq!(main.label, "Function");
    assert_eq!(main.visibility, "package");
    assert_eq!((main.start_line, main.end_line), (22, 24));
    let call = node(&r, "main.go::main#1::call@23:2#2");
    assert_eq!(call.label, "CallSite");
    assert_eq!(call.name, "Println");
    assert_eq!(call.visibility, "public");
    assert!(has_ref(&r, "Calls", "main.go::main#1", "Println"));

    let start = node(&r, "main.go::Server::Start#3");
    assert_eq!(start.label, "Method");
    assert_eq!(start.visibility, "public");
    assert_eq!(start.properties, vec![("receiver_type".to_string(), "Server".to_string())]);
    assert!(has_ref(&r, "HasMethod", "main.go::Server", "main.go::Server::Start#3"));
    let serve = node(&r, "main.go::Server::Start#3::call@27:9#4");
    assert_eq!(serve.name, "ListenAndServe");
}

#[test]
fn java_types_members_and_imports() {
    let r = parse_java_file(JAVA_SRC, "Dog.java").expect("java parses");
    let list = node(&r, "Dog.java::import:java.util.List");
    assert_eq!(list.name, "List");
    assert_eq!(list.visibility, "package");
    let max = node(&r, "Dog.java::import:java.lang.Math.max");
    assert_eq!(max.name, "max");
    assert!(has_ref(&r, "Imports", "Dog.java", "java.lang.Math.max"));

    let dog = node(&r, "Dog.java::Dog");
    assert_eq!(dog.label, "Struct");
    assert_eq!(dog.visibility, "public");
    assert_eq!((dog.start_line, dog.end_line), (6, 15));
    assert!(has_ref(&r, "Extends", "Dog.java::Dog", "Animal"));
    // The interfaces sit inside a type list, one level below the clause.
    assert!(!r.refs.iter().any(|e| e.kind == "Implements"));

    let age = node(&r, "Dog.java::Dog::age");
    assert_eq!(age.label, "Constant");
    assert_eq!(age.visibility, "private");

    let walker = node(&r, "Dog.java::Walker");
    assert_eq!(walker.label, "Trait");
    assert_eq!(walker.visibility, "package");
    assert_eq!(node(&r, "Dog.java::Color").label, "Enum");
}

#[test]
fn java_methods_and_call_sites() {
    let r = parse_java_file(JAVA_SRC, "Dog.java").expect("java parses");
    let ctor = node(&r, "Dog.java::Dog::Dog#1");
    assert_eq!(ctor.label, "Method");
    assert_eq!(ctor.properties, vec![("receiver_type".to_string(), "Dog.java::Dog".to_string())]);
    assert!(has_ref(&r, "HasMethod", "Dog.java::Dog", "Dog.java::Dog::Dog#1"));
    let run = node(&r, "Dog.java::Dog::run#2");
    assert_eq!(run.visibility, "public");
    let created = node(&r, "Dog.java::Dog::run#2::call@13:26#3");
    assert_eq!(created.name, "ArrayList<>");
    assert_eq!(created.visibility, "package");
    let bark = node(&r, "Dog.java::Dog::run#2::call@12:9#4");
    assert_eq!(bark.name, "bark");
    assert!(has_ref(&r, "Calls", "Dog.java::Dog::run#2", "bark"));
    let walk = node(&r, "Dog.java::Walker::walk#5");
    assert_eq!(walk.label, "Method");
    let calls = r.nodes.iter().filter(|n| n.label == "CallSite").count();
    assert_eq!(calls, 2);
}

#[test]
fn parse_file_reaches_go_and_java() {
    let r = parse_file("package p\nfunc f() {}\n", "p.go", Language::Go).expect("go");
    assert_eq!(r.nodes[0].qualified_name, "p.go::f#1");
    let r = parse_file("class A {}\n", "A.java", Language::Java).expect("java");
    assert_eq!(r.nodes[0].qualified_name, "A.java::A");
}

const C_SRC: &str = "#include <stdio.h>\n#include \"lib/util.h\"\n\nstruct Point { int x; int y; };\n\nenum Color { RED, GREEN };\n\ntypedef unsigned long size;\n\nint add(int a, int b);\n\nint main(void) {\n    printf(\"hi\");\n    return helper();\n}\n#ifdef DEBUG\nvoid trace(void) {}\n#endif\nint counter = 0;\n";

#[test]
fn c_includes_types_and_enumerators() {
    let r = parse_c_file(C_SRC, "x.c").expect("c parses");
    let stdio = node(&r, "x.c::include:stdio.h");
    assert_eq!(stdio.label, "Import");
    assert_eq!(stdio.name, "stdio.h");
    assert_eq!(node(&r, "x.c::include:lib/util.h").name, "util.h");
    assert!(has_ref(&r, "Imports", "x.c", "lib/util.h"));
    assert_eq!(node(&r, "x.c::Point").label, "Struct");
    assert_eq!(node(&r, "x.c::Color").label, "Enum");
    let red = node(&r, "x.c::Color::RED");
    assert_eq!(red.label, "Constant");
    assert_eq!(red.properties, vec![("enum_entry".to_string(), "true".to_string())]);
    assert!(has_ref(&r, "Defines", "x.c::Color", "x.c::Color::GREEN"));
    let size = node(&r, "x.c::size");
    assert_eq!(size.properties, vec![("typedef".to_string(), "true".to_string())]);
    assert!(!r.nodes.iter().any(|n| n.name == "counter"));
}

#[test]
fn c_functions_prototypes_and_calls() {
    let r = parse_c_file(C_SRC, "x.c").expect("c parses");
    // A prototype is named by the first identifier of a last-to-first
    // walk, which reaches the last parameter before the function's name.
    let proto = node(&r, "x.c::b#1");
    assert_eq!(proto.properties, vec![("is_prototype".to_string(), "true".to_string())]);
    let main = node(&r, "x.c::main#2");
    assert_eq!(main.label, "Function");
    assert_eq!((main.start_line, main.end_line), (12, 15));
    assert_eq!(node(&r, "x.c::main#2::call@14:12#3").name, "helper");
    assert_eq!(node(&r, "x.c::main#2::call@13:5#4").name, "printf");
    assert!(has_ref(&r, "Calls", "x.c::main#2", "printf"));
    assert_eq!(node(&r, "x.c::trace#5").start_line, 17);
}

#[test]
fn parse_file_reaches_c() {
    let r = parse_file("int f(void) { return 0; }\n", "f.c", Language::C).expect("c");
    assert_eq!(r.nodes[0].qualified_name, "f.c::f#1");
}

const CPP_SRC: &str = "#include <vector>\nusing std::string;\n\nnamespace geo {\nclass Shape : public Base {\npublic:\n    int sides;\n    void draw();\n    int area() { return compute(sides); }\n};\nstruct Pt { int x; };\nenum Kind { A, B };\n}\n\ntemplate <typename T>\nT twice(T v) { return v + v; }\n\nvoid geo::Shape::draw() { helper(); }\n";

#[test]
fn cpp_namespaces_classes_and_members() {
    let r = parse_cpp_file(CPP_SRC, "x.cpp").expect("cpp parses");
    assert_eq!(node(&r, "x.cpp::include:vector").name, "vector");
    let using = node(&r, "x.cpp::using:std::string");
    assert_eq!(using.name, "std::string");
    assert_eq!(using.properties, vec![("using".to_string(), "true".to_string())]);
    let ns = node(&r, "x.cpp::geo");
    assert_eq!(ns.properties, vec![("is_namespace".to_string(), "true".to_string())]);
    let shape = node(&r, "x.cpp::geo::Shape");
    assert_eq!(shape.properties, vec![("is_class".to_string(), "true".to_string())]);
    assert!(!r.refs.iter().any(|e| e.kind == "Extends"));
    assert_eq!(node(&r, "x.cpp::geo::Shape::sides").label, "Constant");
    let proto = node(&r, "x.cpp::geo::Shape::draw#1");
    assert_eq!(proto.properties, vec![
        ("is_prototype".to_string(), "true".to_string()),
        ("receiver_type".to_string(), "x.cpp::geo::Shape".to_string()),
    ]);
    assert!(node(&r, "x.cpp::geo::Pt").properties.is_empty());
    assert_eq!(node(&r, "x.cpp::geo::Pt::x").label, "Constant");
    assert_eq!(node(&r, "x.cpp::geo::Kind").label, "Enum");
}

#[test]
fn cpp_methods_functions_and_calls() {
    let r = parse_cpp_file(CPP_SRC, "x.cpp").expect("cpp parses");
    let area = node(&r, "x.cpp::geo::Shape::area#2");
    assert_eq!(area.label, "Method");
    assert!(has_ref(&r, "HasMethod", "x.cpp::geo::Shape", "x.cpp::geo::Shape::area#2"));
    assert_eq!(node(&r, "x.cpp::geo::Shape::area#2::call@9:25#3").name, "compute");
    // The template's function is named by the last identifier of its declarator.
    assert_eq!(node(&r, "x.cpp::v#4").label, "Function");
    let draw = node(&r, "x.cpp::draw#5");
    assert_eq!(draw.label, "Function");
    assert_eq!(node(&r, "x.cpp::draw#5::call@18:27#6").name, "helper");
}

const KT_SRC: &str = "package demo\n\nimport kotlin.math.max\n\ninterface Greeter {\n    fun greet(): String\n}\n\nprivate class Dog : Animal(), Greeter {\n    override fun greet(): String { return bark(\"hi\") }\n    fun String.shout() = uppercase()\n}\n\nenum class Color { RED, GREEN }\n\nobject Registry {\n    internal fun register() { println(\"x\") }\n}\n\nfun main() { Dog().greet() }\n";

#[test]
fn kotlin_classes_and_visibility() {
    let r = parse_kotlin_file(KT_SRC, "demo.kt").expect("kotlin parses");
    let greeter = node(&r, "demo.kt::Greeter");
    assert_eq!(greeter.label, "Trait");
    assert_eq!(greeter.visibility, "public");
    let dog = node(&r, "demo.kt::Dog");
    assert_eq!(dog.label, "Struct");
    assert_eq!(dog.visibility, "private");
    assert_eq!((dog.start_line, dog.end_line), (9, 12));
    assert_eq!(node(&r, "demo.kt::Color").label, "Enum");
    assert_eq!(node(&r, "demo.kt::Registry").label, "Struct");
    // Imports, supertypes and enum entries sit under node kinds or fields
    // this grammar does not produce.
    assert!(!r.nodes.iter().any(|n| n.label == "Import"));
    assert!(!r.refs.iter().any(|e| e.kind == "Extends"));
    assert!(!r.nodes.iter().any(|n| n.name == "RED"));
}

#[test]
fn kotlin_functions_methods_and_calls() {
    let r = parse_kotlin_file(KT_SRC, "demo.kt").expect("kotlin parses");
    let greet = node(&r, "demo.kt::Greeter::greet#1");
    assert_eq!(greet.label, "Method");
    assert_eq!(greet.properties, vec![("receiver_type".to_string(), "demo.kt::Greeter".to_string())]);
    assert!(has_ref(&r, "HasMethod", "demo.kt::Dog", "demo.kt::Dog::greet#2"));
    assert_eq!(node(&r, "demo.kt::Dog::greet#2::call@10:43#3").name, "bark");
    assert_eq!(node(&r, "demo.kt::Dog::shout#4").label, "Method");
    assert_eq!(node(&r, "demo.kt::Dog::shout#4::call@11:26#5").name, "uppercase");
    let register = node(&r, "demo.kt::Registry::register#6");
    assert_eq!(register.visibility, "internal");
    assert_eq!(node(&r, "demo.kt::Registry::register#6::call@17:31#7").name, "println");
    let main = node(&r, "demo.kt::main#8");
    assert_eq!(main.label, "Function");
    assert!(has_ref(&r, "Defines", "demo.kt", "demo.kt::main#8"));
    assert_eq!(node(&r, "demo.kt::main#8::call@20:14#9").name, "greet");
    assert_eq!(node(&r, "demo.kt::main#8::call@20:14#10").name, "Dog");
}

const OBJC_SRC: &str = "#import <Foundation/Foundation.h>\n@import UIKit;\n\n@protocol Greeter\n- (void)greet;\n@end\n\n@interface Dog : NSObject\n- (void)bark;\n@end\n\n@implementation Dog\n- (void)bark { [self wag]; }\n@end\n\nint main(void) { printf(\"hi\"); return 0; }\n";

#[test]
fn objc_imports_classes_and_protocols() {
    let r = parse_objc_file(OBJC_SRC, "x.m").expect("objc parses");
    let foundation = node(&r, "x.m::import:Foundation/Foundation.h");
    assert_eq!(foundation.name, "Foundation.h");
    let uikit = node(&r, "x.m::import:UIKit");
    assert_eq!(uikit.name, "UIKit");
    assert!(has_ref(&r, "Imports", "x.m", "UIKit"));
    assert_eq!(node(&r, "x.m::Greeter").label, "Trait");
    // The interface and the implementation are both recorded.
    let dogs = r.nodes.iter().filter(|n| n.qualified_name == "x.m::Dog" && n.label == "Struct").count();
    assert_eq!(dogs, 2);
}

#[test]
fn objc_functions_and_calls() {
    let r = parse_objc_file(OBJC_SRC, "x.m").expect("objc parses");
    let main = node(&r, "x.m::main#1");
    assert_eq!(main.label, "Function");
    assert_eq!(node(&r, "x.m::main#1::call@16:18#2").name, "printf");
    // Methods are named by selector children this grammar does not produce.
    assert!(!r.nodes.iter().any(|n| n.label == "Method"));
}

#[test]
fn parse_file_reaches_every_front_end() {
    let r = parse_file("void f() {}\n", "f.cpp", Language::Cpp).expect("cpp");
    assert_eq!(r.nodes[0].qualified_name, "f.cpp::f#1");
    let r = parse_file("fun f() {}\n", "f.kt", Language::Kotlin).expect("kotlin");
    assert_eq!(r.nodes[0].qualified_name, "f.kt::f#1");
    let r = parse_file("void f() {}\n", "f.m", Language::ObjC).expect("objc");
    assert_eq!(r.nodes[0].qualified_name, "f.m::f#1");
}

fn numbered_names(r: &ParseResult) -> Vec<String> {
    r.nodes.iter()
        .filter(|n| n.label == "Function" || n.label == "Method" || n.label == "CallSite")
        .map(|n| n.qualified_name.clone())
        .collect()
}

fn all_distinct(v: &[String]) -> bool {
    let mut s = v.to_vec();
    s.sort();
    s.dedup();
    s.len() == v.len()
}

#[test]
fn overloads_and_repeated_calls_get_distinct_names() {
    let r = parse_java_file("class A {\n    void f(int a) { g(); g(); }\n    void f(String s) {}\n}\n", "A.java").expect("java");
    let names = numbered_names(&r);
    assert_eq!(names.len(), 4);
    assert!(all_distinct(&names));
    assert!(names.contains(&"A.java::A::f#1".to_string()));
    assert!(names.contains(&"A.java::A::f#4".to_string()));

    let r = parse_kotlin_file("fun f(a: Int) { g(); g() }\nfun f(s: String) {}\n", "f.kt").expect("kotlin");
    let names = numbered_names(&r);
    assert_eq!(names.len(), 4);
    assert!(all_distinct(&names));

    let r = parse_go_file("package p\nfunc f() { g(); g() }\n", "p.go").expect("go");
    let names = numbered_names(&r);
    assert_eq!(names.len(), 3);
    assert!(all_distinct(&names));
}

#[test]
fn parse_stops_once_the_time_limit_has_passed() {
    assert_eq!(PARSE_TIMEOUT_MILLIS, 5000);
    assert!(progress_after(0).is_continue());
    assert!(progress_after(4999).is_continue());
    assert!(progress_after(5000).is_break());
    assert!(progress_after(u64::MAX).is_break());
}
