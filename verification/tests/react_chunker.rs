use mcp_nano::chunk_types::{CodeChunkKind, ReactFields};
use mcp_nano::code_chunk::CodeChunk;
use mcp_nano::react_chunks::{chunk_react_source, react_source_dependencies};

const SAMPLE_REACT: &str = r#"import React, { useState, useEffect } from "react";
import { Button } from './Button';
import Other from "react";

interface LayoutProps { title: string }

function Layout({ title, children }: LayoutProps) {
  return <div><h1>{title}</h1>{children}</div>;
}

export function App(props: AppProps) {
  const [count, setCount] = useState(0);
  useEffect(() => {}, []);
  const [other, setOther] = useState(1);
  return <Layout title="x"><Button onClick={() => setCount(count + 1)} /></Layout>;
}

export function useWindowSize() {
  const [size, setSize] = useState(0);
  return size;
}

function formatLabel(label: string) {
  return label.trim();
}

export const Card: React.FC<PropsWithChildren<CardProps>> = ({ label }) => {
  return <span>{label}</span>;
};

class Counter extends React.Component<CounterProps> {
  render() { return <p>{this.props.n}</p>; }
}
"#;

const SAMPLE_REACT_INNER: &str = r#"import { useState } from "react";

export function Widget() {
  function helper() { return 1; }
  const helper2 = () => helper() + 1;
  return <div>{helper2()}</div>;
}

const version = 2;
"#;

fn react(c: &CodeChunk) -> &ReactFields {
    match &c.kind {
        CodeChunkKind::React(f) => f,
        _ => panic!("expected a React chunk"),
    }
}

fn find<'a>(chunks: &'a [CodeChunk], name: &str) -> &'a CodeChunk {
    chunks
        .iter()
        .find(|c| matches!(&c.kind, CodeChunkKind::React(f) if f.component_name.as_deref() == Some(name)))
        .unwrap()
}

#[test]
fn react_components_hooks_export_and_inner() {
    let chunks = chunk_react_source(SAMPLE_REACT.as_bytes(), "sample_react.tsx");
    let app = find(&chunks, "App");
    let f = react(app);
    assert!(f.is_exported);
    assert_eq!(app.chunk_type, "functional_component");
    let layout = find(&chunks, "Layout");
    let lf = react(layout);
    assert!(!lf.is_exported);
    assert!(chunks.iter().any(|c| {
        c.chunk_type == "hook"
            && matches!(&c.kind, CodeChunkKind::React(f) if f.component_name.as_deref() == Some("useWindowSize") && f.is_exported)
    }));

    let inner = chunk_react_source(SAMPLE_REACT_INNER.as_bytes(), "sample_react_inner.tsx");
    assert!(inner.iter().any(|c| {
        c.chunk_type == "function"
            && matches!(&c.kind, CodeChunkKind::React(f) if f.component_name.as_deref() == Some("helper"))
    }));
    assert!(inner.iter().any(|c| {
        c.chunk_type == "function"
            && matches!(&c.kind, CodeChunkKind::React(f) if f.component_name.as_deref() == Some("helper2"))
    }));
    let rem = inner.iter().find(|c| c.chunk_type == "file_remainder").unwrap();
    assert!(!rem.code.contains("function Widget"));
    assert!(rem.code.contains("import"));
}

#[test]
fn react_chunks_come_in_walk_order() {
    let chunks = chunk_react_source(SAMPLE_REACT.as_bytes(), "src/sample_react.tsx");
    let got: Vec<(&str, Option<&str>)> = chunks
        .iter()
        .filter(|c| c.chunk_type != "file_remainder")
        .map(|c| (c.chunk_type.as_str(), react(c).component_name.as_deref()))
        .collect();
    assert_eq!(
        got,
        vec![
            ("functional_component", Some("Layout")),
            ("functional_component", Some("App")),
            ("hook", Some("useWindowSize")),
            ("functional_component", Some("Card")),
        ]
    );
    for c in &chunks {
        assert_eq!(c.file_name, "sample_react.tsx");
        assert_eq!(c.dependencies, vec!["react".to_string(), "./Button".to_string()]);
    }
    let app = find(&chunks, "App");
    assert!(app.id.starts_with("sample_react.tsx-App-"));
    assert!(app.code.starts_with("function App(props: AppProps)"));
}

#[test]
fn react_hooks_are_listed_once_each() {
    let chunks = chunk_react_source(SAMPLE_REACT.as_bytes(), "sample_react.tsx");
    let mut hooks = react(find(&chunks, "App")).hooks_used.clone();
    hooks.sort();
    assert_eq!(hooks, vec!["useEffect".to_string(), "useState".to_string()]);
    assert_eq!(react(find(&chunks, "useWindowSize")).hooks_used, vec!["useState".to_string()]);
    assert!(react(find(&chunks, "Layout")).hooks_used.is_empty());
}

#[test]
fn react_props_from_parameters_and_props_with_children() {
    let chunks = chunk_react_source(SAMPLE_REACT.as_bytes(), "sample_react.tsx");
    let app = react(find(&chunks, "App"));
    assert_eq!(app.props.len(), 1);
    assert_eq!(app.props[0].name, "props");
    assert_eq!(app.props[0].param_type, ": AppProps");
    let card = find(&chunks, "Card");
    let cf = react(card);
    assert!(cf.is_exported);
    assert!(cf.is_functional);
    let last = cf.props.last().unwrap();
    assert_eq!(last.name, "children");
    assert_eq!(last.param_type, "unknown");
    assert!(card.code.starts_with("Card: React.FC"));
}

#[test]
fn react_remainder_keeps_plain_functions_and_classes() {
    let chunks = chunk_react_source(SAMPLE_REACT.as_bytes(), "sample_react.tsx");
    let rem = chunks.last().unwrap();
    assert_eq!(rem.chunk_type, "file_remainder");
    assert!(rem.code.contains("function formatLabel"));
    assert!(rem.code.contains("interface LayoutProps"));
    assert!(rem.code.contains("class Counter"));
    assert!(!rem.code.contains("function App"));
    assert!(!rem.code.contains("export const Card"));
    assert!(!chunks.iter().any(|c| c.chunk_type == "class_component"));
}

#[test]
fn react_inner_functions_name_their_component() {
    let chunks = chunk_react_source(SAMPLE_REACT_INNER.as_bytes(), "sample_react_inner.tsx");
    let helper = find(&chunks, "helper");
    assert_eq!(react(helper).parent_component.as_deref(), Some("Widget"));
    assert!(!react(helper).is_exported);
    let helper2 = find(&chunks, "helper2");
    assert_eq!(react(helper2).parent_component.as_deref(), Some("Widget"));
    assert_eq!(helper2.code, "helper2 = () => helper() + 1");
    assert_eq!(chunks.len(), 4);
}

#[test]
fn react_dependencies_in_document_order() {
    let deps = react_source_dependencies(SAMPLE_REACT.as_bytes());
    assert_eq!(deps, vec!["react".to_string(), "./Button".to_string()]);
}
