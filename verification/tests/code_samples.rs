use std::collections::{HashMap, HashSet};

use mcp_nano::chunk_types::CodeChunkKind;
use mcp_nano::code_chunk::CodeChunk;
use mcp_nano::code_files::chunk_single_code_file;

fn chunk_file(file: &str, source: &str, repo_name: &str) -> Vec<CodeChunk> {
    chunk_single_code_file(file, source.as_bytes(), repo_name, None, &vec![])
}

const SAMPLE_C_H: &str = "#ifndef SDS_H\n\
#define SDS_H\n\
typedef char *sds;\n\
struct __attribute__ ((__packed__)) sdshdr8 {\n    unsigned char len;\n    char buf[];\n};\n\
static inline unsigned long sdslen(const sds s) {\n    return (unsigned long)s[-1];\n}\n\
typedef struct CustomerProfile {\n    char firstName[64];\n    char lastName[64];\n    int age;\n} CustomerProfile;\n\
#endif\n";

#[test]
fn c_header_and_struct_in_remainder() {
    let chunks = chunk_file("sample_c.h", SAMPLE_C_H, "test_repo");
    assert!(chunks.iter().any(|c| {
        matches!(&c.kind, CodeChunkKind::C(f) if f.function_name.as_deref() == Some("sdslen"))
    }));
    let rem = chunks.iter().find(|c| c.chunk_type == "file_remainder").unwrap();
    assert!(rem.code.contains("struct __attribute__") || rem.code.contains("CustomerProfile"));
    assert!(rem.code.contains("CustomerProfile"));
    assert!(rem.code.contains("firstName"));
}

const SAMPLE_CPP: &str = r#"namespace Poco {

void UUID::swap(UUID& uuid) noexcept
{
    std::swap(_timeLow, uuid._timeLow);
}

std::string UUID::toString() const
{
    std::string result;
    return result;
}

}
"#;

const SAMPLE_HPP: &str = r#"namespace Poco {

class ByteOrder
{
public:
    static Int16 flipBytes(Int16 value)
    {
        return value;
    }
};

struct CustomerProfile
{
    std::string firstName;
    std::string lastName;
    int age;
    std::string email;
    bool isActive;
};

}
"#;

#[test]
fn cpp_functions_class_and_poco() {
    let chunks = chunk_file("sample_cpp.cpp", SAMPLE_CPP, "test_repo");
    let swap = chunks
        .iter()
        .find(|c| matches!(&c.kind, CodeChunkKind::Cpp(f) if f.function_name.as_deref() == Some("swap")))
        .unwrap();
    let CodeChunkKind::Cpp(f) = &swap.kind else { panic!() };
    assert_eq!(f.class_name.as_deref(), Some("UUID"));
    assert_eq!(f.namespace.as_deref(), Some("Poco"));
    assert!(chunks.iter().any(|c| {
        matches!(&c.kind, CodeChunkKind::Cpp(f) if f.function_name.as_deref() == Some("toString"))
    }));

    let hdr = chunk_file("sample_cpp.hpp", SAMPLE_HPP, "test_repo");
    assert!(hdr.iter().any(|c| {
        matches!(&c.kind, CodeChunkKind::Cpp(f) if f.function_name.as_deref() == Some("flipBytes")
            && f.class_name.as_deref() == Some("ByteOrder")
            && f.namespace.as_deref() == Some("Poco"))
    }));
    assert!(hdr.iter().any(|c| {
        c.chunk_type == "class_specifier"
            && matches!(&c.kind, CodeChunkKind::Cpp(f) if f.class_name.as_deref() == Some("ByteOrder"))
    }));
    let poco = hdr
        .iter()
        .find(|c| matches!(&c.kind, CodeChunkKind::Cpp(f) if f.class_name.as_deref() == Some("CustomerProfile")))
        .expect("CustomerProfile struct");
    assert_eq!(poco.chunk_type, "struct_specifier");
    for field in ["CustomerProfile", "firstName", "lastName", "age", "email", "isActive"] {
        assert!(poco.code.contains(field));
    }
}

const SAMPLE_JAVA: &str = r#"package com.example.demo;

import java.util.List;

public abstract class Assert {
    public static void state(boolean expression, String message) {
        if (!expression) {
            throw new IllegalStateException(message);
        }
    }
}

interface Validatable {
    boolean isValid();
}

enum AssertionSeverity {
    INFO, WARNING, FATAL
}

class CustomerProfile {
    private String firstName;
    private String lastName;
    private int age;
    private String email;
    private boolean active;
}
"#;

#[test]
fn java_methods_types_and_poco() {
    let chunks = chunk_file("sample_java.java", SAMPLE_JAVA, "test_repo");
    let state = chunks
        .iter()
        .find(|c| matches!(&c.kind, CodeChunkKind::Java(f) if f.function_name.as_deref() == Some("state") && f.class_name.as_deref() == Some("Assert")))
        .unwrap();
    let CodeChunkKind::Java(f) = &state.kind else { panic!() };
    assert_eq!(f.namespace.as_deref(), Some("com.example.demo"));
    assert!(chunks.iter().any(|c| c.chunk_type == "class_declaration"
        && matches!(&c.kind, CodeChunkKind::Java(f) if f.class_name.as_deref() == Some("Assert"))));
    assert!(chunks.iter().any(|c| c.chunk_type == "interface_declaration"
        && matches!(&c.kind, CodeChunkKind::Java(f) if f.class_name.as_deref() == Some("Validatable"))
        && c.code.contains("isValid")));
    assert!(chunks.iter().any(|c| c.chunk_type == "enum_declaration"
        && matches!(&c.kind, CodeChunkKind::Java(f) if f.class_name.as_deref() == Some("AssertionSeverity"))
        && c.code.contains("FATAL")));
    let poco = chunks
        .iter()
        .find(|c| matches!(&c.kind, CodeChunkKind::Java(f) if f.class_name.as_deref() == Some("CustomerProfile")))
        .unwrap();
    for field in ["CustomerProfile", "firstName", "lastName", "age", "email", "active"] {
        assert!(poco.code.contains(field));
    }
}

const SAMPLE_JS: &str = r#"'use strict';

const {isArray} = Array;

function isBuffer(val) {
  return val !== null && val.constructor !== null;
}

function forEach(obj, fn) {
  for (const key in obj) {
    fn.call(null, obj[key], key, obj);
  }
}

function findKey(obj, key) {
  return Object.keys(obj).find((k) => k.toLowerCase() === key);
}

function merge() {
  const result = {};
  return result;
}

class CustomerProfile {
  constructor(firstName, lastName) {
    this.firstName = firstName;
    this.lastName = lastName;
  }

  getFullName() {
    return this.firstName + ' ' + this.lastName;
  }
}

module.exports = { isBuffer, forEach, findKey, merge, isArray };
"#;

#[test]
fn js_functions_class_method_and_remainder() {
    let chunks = chunk_file("sample_js.js", SAMPLE_JS, "test_repo");
    for name in ["isBuffer", "forEach", "findKey", "merge", "getFullName"] {
        assert!(
            chunks.iter().any(|c| matches!(&c.kind, CodeChunkKind::JavaScript(f) if f.function_name.as_deref() == Some(name))),
            "missing {name}"
        );
    }
    let full = chunks
        .iter()
        .find(|c| matches!(&c.kind, CodeChunkKind::JavaScript(f) if f.function_name.as_deref() == Some("getFullName")))
        .unwrap();
    let CodeChunkKind::JavaScript(f) = &full.kind else { panic!() };
    assert_eq!(f.class_name.as_deref(), Some("CustomerProfile"));
    let rem = chunks.iter().find(|c| c.chunk_type == "file_remainder").unwrap();
    assert!(rem.code.contains("const {isArray}") || rem.code.contains("CustomerProfile"));
    assert!(!rem.code.contains("function merge"));
}

const SAMPLE_CS: &str = r#"using System;

namespace Sample.Json
{
    public delegate void JsonWriteCallback(string value);

    public enum JsonTokenType
    {
        None,
        StartObject,
        EndObject,
    }

    public readonly struct JsonEncodedText
    {
        private readonly string _value;

        public static JsonEncodedText Encode(string value)
        {
            return new JsonEncodedText();
        }

        public override bool Equals(object obj)
        {
            return obj is JsonEncodedText;
        }
    }

    public record MaxDiscountLogItemSummary(
        string ItemNumber,
        string PcatName,
        int TotalQuantity,
        decimal TotalDollarDiscount,
        decimal AvgDiscountPct);

    public record MaxDicount2(string Name, decimal Amount);

    public class CustomerProfile
    {
        public string FirstName { get; set; }
        public string LastName { get; set; }
        public int Age { get; set; }
        public bool IsActive { get; set; }
    }
}
"#;

const SAMPLE_CS_MODERN: &str = r#"namespace Sample.Orders;

public interface IOrderRepository
{
    Order Find(int id);
}

public record Order(int Id, decimal Amount);

public enum OrderStatus { Open, Closed }

public class OrderService
{
    public decimal CalculateTotal(Order order) => order.Amount;

    public bool IsValid(Order order)
    {
        return order.Amount > 0;
    }
}
"#;

#[test]
fn csharp_records_struct_enum_poco_and_modern() {
    let chunks = chunk_file("sample_csharp.cs", SAMPLE_CS, "test_repo");
    assert!(chunks.iter().any(|c| matches!(&c.kind, CodeChunkKind::CSharp(f) if f.function_name.as_deref() == Some("Encode"))));
    assert!(chunks.iter().any(|c| matches!(&c.kind, CodeChunkKind::CSharp(f) if f.function_name.as_deref() == Some("Equals"))));

    let record = chunks
        .iter()
        .find(|c| {
            c.chunk_type == "record_declaration"
                && matches!(&c.kind, CodeChunkKind::CSharp(f) if f.class_name.as_deref() == Some("MaxDiscountLogItemSummary"))
        })
        .unwrap();
    let CodeChunkKind::CSharp(rf) = &record.kind else { panic!() };
    let props: HashSet<_> = rf.properties.iter().map(|p| p.name.as_str()).collect();
    assert_eq!(
        props,
        HashSet::from(["ItemNumber", "PcatName", "TotalQuantity", "TotalDollarDiscount", "AvgDiscountPct"])
    );

    let pos = chunks
        .iter()
        .find(|c| matches!(&c.kind, CodeChunkKind::CSharp(f) if f.class_name.as_deref() == Some("MaxDicount2")))
        .unwrap();
    let CodeChunkKind::CSharp(pf) = &pos.kind else { panic!() };
    assert!(pf.properties.iter().any(|p| p.param_type == "string"));
    assert!(pf.properties.iter().any(|p| p.param_type == "decimal"));

    assert!(chunks.iter().any(|c| {
        c.chunk_type == "struct_declaration"
            && matches!(&c.kind, CodeChunkKind::CSharp(f) if f.class_name.as_deref() == Some("JsonEncodedText"))
    }));
    assert!(chunks.iter().any(|c| {
        c.chunk_type == "enum_declaration"
            && matches!(&c.kind, CodeChunkKind::CSharp(f) if f.class_name.as_deref() == Some("JsonTokenType"))
    }));
    assert!(chunks.iter().any(|c| {
        c.chunk_type == "delegate_declaration"
            && matches!(&c.kind, CodeChunkKind::CSharp(f) if f.class_name.as_deref() == Some("JsonWriteCallback"))
    }));

    let poco = chunks
        .iter()
        .find(|c| {
            c.chunk_type == "class_declaration"
                && matches!(&c.kind, CodeChunkKind::CSharp(f) if f.class_name.as_deref() == Some("CustomerProfile"))
        })
        .unwrap();
    let CodeChunkKind::CSharp(cf) = &poco.kind else { panic!() };
    let prop_map: HashMap<_, _> =
        cf.properties.iter().map(|p| (p.name.as_str(), p.param_type.as_str())).collect();
    assert_eq!(prop_map.get("FirstName"), Some(&"string"));
    assert_eq!(prop_map.get("Age"), Some(&"int"));
    assert_eq!(prop_map.get("IsActive"), Some(&"bool"));

    let modern = chunk_file("sample_csharp_modern.cs", SAMPLE_CS_MODERN, "test_repo");
    assert!(!modern.is_empty());
    let types: HashSet<_> = modern.iter().map(|c| c.chunk_type.as_str()).collect();
    assert!(types.contains("class_declaration"));
    assert!(types.contains("interface_declaration"));
    assert!(types.contains("record_declaration"));
    assert!(types.contains("enum_declaration"));
    assert!(modern.iter().any(|c| matches!(&c.kind, CodeChunkKind::CSharp(f) if f.function_name.as_deref() == Some("CalculateTotal"))));
    assert!(modern.iter().any(|c| matches!(&c.kind, CodeChunkKind::CSharp(f) if f.function_name.as_deref() == Some("IsValid"))));
    assert!(modern.iter().any(|c| matches!(&c.kind, CodeChunkKind::CSharp(f) if f.interface_name.as_deref() == Some("IOrderRepository"))));
}

const SAMPLE_PY: &str = r#"from __future__ import annotations

import json
from typing import TypeVar

T = TypeVar("T")


def traced(kind):
    def decorate(fn):
        return fn
    return decorate


def identity(value):
    return value


@traced("sync")
def describe(item, /, count: int = 1, *labels: str, enabled: bool = True, **options) -> dict[str, object]:
    return {"item": item, "count": count}


async def fetch_records(source):
    return [source]


async def consume(source):
    async for record in source:
        print(record)


def values():
    yield 1


async def stream_values():
    yield 2


def yield_from_values():
    yield from values()


def callback(event):
    return event


class Service[T](BaseService, metaclass=type):
    identifier: int
    name: str
    cache = None
    type Alias = list[T]

    def __init__(self, identifier: int, name: str):
        self.identifier = identifier
        self.name = name
        self.cache = {}

    @classmethod
    def create(cls):
        return cls(0, "")

    @staticmethod
    def parse(raw):
        return json.loads(raw)

    @property
    def label(self):
        return self.name


def outer():
    def local():
        return 1

    class LocalFormatter:
        def format(self, value):
            return str(value)

    return local


def control_flow(flag):
    if flag:
        return 1
    return 0


CONSTANT = "module remainder"

match CONSTANT:
    case "module remainder":
        pass
"#;

#[test]
fn python_functions_classes_signatures_and_remainder() {
    let chunks = chunk_file("sample_python.py", SAMPLE_PY, "test_repo");
    assert!(chunks.iter().all(|c| matches!(c.kind, CodeChunkKind::Python(_)) || c.chunk_type == "file_remainder"));
    for name in [
        "traced", "decorate", "identity", "describe", "fetch_records", "consume", "values",
        "stream_values", "yield_from_values", "callback", "__init__", "create", "parse", "label",
        "outer", "local", "format", "control_flow",
    ] {
        assert!(
            chunks.iter().any(|c| matches!(&c.kind, CodeChunkKind::Python(f) if f.function_name.as_deref() == Some(name))),
            "missing {name}"
        );
    }
    assert!(chunks.iter().any(|c| matches!(&c.kind, CodeChunkKind::Python(f) if f.class_name.as_deref() == Some("Service"))));
    assert!(chunks.iter().any(|c| matches!(&c.kind, CodeChunkKind::Python(f) if f.class_name.as_deref() == Some("LocalFormatter"))));

    let describe = chunks
        .iter()
        .find(|c| matches!(&c.kind, CodeChunkKind::Python(f) if f.function_name.as_deref() == Some("describe")))
        .unwrap();
    let CodeChunkKind::Python(df) = &describe.kind else { panic!() };
    assert_eq!(
        df.parameters.iter().map(|p| p.name.as_str()).collect::<Vec<_>>(),
        vec!["item", "/", "count", "labels", "enabled", "options"]
    );
    assert_eq!(df.return_type.as_deref(), Some("dict[str, object]"));
    assert_eq!(df.decorators, vec!["@traced(\"sync\")"]);

    let service = chunks
        .iter()
        .find(|c| matches!(&c.kind, CodeChunkKind::Python(f) if f.class_name.as_deref() == Some("Service") && f.function_name.is_none() && !f.is_type_alias))
        .unwrap();
    let CodeChunkKind::Python(sf) = &service.kind else { panic!() };
    assert_eq!(sf.type_parameters.as_deref(), Some("[T]"));
    assert_eq!(sf.bases.as_deref(), Some("BaseService, metaclass=type"));
    let props: HashMap<_, _> =
        sf.properties.iter().map(|p| (p.name.as_str(), p.param_type.as_str())).collect();
    assert_eq!(props.get("identifier"), Some(&"int"));
    assert_eq!(props.get("name"), Some(&"str"));
    assert_eq!(props.get("cache"), Some(&""));
    assert!(!props.contains_key("Alias"));
    assert!(!service.code.contains("def __init__"));

    let values = chunks
        .iter()
        .find(|c| matches!(&c.kind, CodeChunkKind::Python(f) if f.function_name.as_deref() == Some("values")))
        .unwrap();
    let CodeChunkKind::Python(vf) = &values.kind else { panic!() };
    assert!(vf.is_generator);

    let rem = chunks.iter().find(|c| c.chunk_type == "file_remainder").unwrap();
    assert!(matches!(rem.kind, CodeChunkKind::Python(_)));
    assert!(rem.code.contains("CONSTANT = \"module remainder\"") || rem.code.contains("CONSTANT = 'module remainder'") || rem.code.contains("module remainder"));
    assert!(rem.code.contains("match CONSTANT:"));
}

const REALWORLD_FASTAPI: &str = r#"from fastapi.security.api_key import APIKeyBase


class APIKeyQuery(APIKeyBase):
    def __init__(self, *, name: str, auto_error: bool = True):
        self.model = name
        self.auto_error = auto_error

    async def __call__(self, request) -> str | None:
        api_key = request.query_params.get(self.model)
        return api_key
"#;

const REALWORLD_HTTPX: &str = r#"import typing


class Auth:
    requires_request_body = False

    def sync_auth_flow(self, request):
        yield request

    async def async_auth_flow(self, request):
        flow = self.auth_flow(request)
        request = next(flow)
        yield request
"#;

const REALWORLD_PYDANTIC: &str = r#"from typing import Any, Callable


def validate_arguments(func: Callable[..., Any] | None = None, *, config=None):
    def validate(_func):
        return _func

    if func:
        return validate(func)
    return validate
"#;

#[test]
fn python_realworld_sources() {
    let cases = [
        ("realworld_fastapi_api_key.py", REALWORLD_FASTAPI, "__call__", Some("APIKeyQuery")),
        ("realworld_httpx_auth.py", REALWORLD_HTTPX, "async_auth_flow", Some("Auth")),
        ("realworld_pydantic_decorator.py", REALWORLD_PYDANTIC, "validate_arguments", None),
    ];
    for (file, source, fn_name, class_name) in cases {
        let chunks = chunk_file(file, source, "real_world");
        assert!(chunks.iter().any(|c| {
            matches!(&c.kind, CodeChunkKind::Python(f)
                if f.function_name.as_deref() == Some(fn_name)
                && (class_name.is_none() || f.class_name.as_deref() == class_name))
        }), "{file}");
    }
}

fn sql_chunks(file: &str, source: &str) -> Vec<CodeChunk> {
    chunk_file(file, source, "test_repo")
        .into_iter()
        .filter(|c| matches!(c.kind, CodeChunkKind::Sql(_)))
        .collect()
}

fn sql_of_type<'a>(chunks: &'a [CodeChunk], stmt: &str) -> Vec<&'a CodeChunk> {
    chunks
        .iter()
        .filter(|c| matches!(&c.kind, CodeChunkKind::Sql(f) if f.statement_type.as_deref() == Some(stmt)))
        .collect()
}

fn sql_obj_names(chunks: &[&CodeChunk]) -> HashSet<String> {
    chunks
        .iter()
        .filter_map(|c| match &c.kind {
            CodeChunkKind::Sql(f) => f.object_name.clone(),
            _ => None,
        })
        .collect()
}

const SAMPLE_SQL: &str = r#"-- Core schema
INSERT INTO dbo.customers (id, name) VALUES (1, 'Alice');

INSERT INTO dbo.orders (id, customer_id) VALUES (1, 1);

SELECT * FROM dbo.customers;

SELECT COUNT(*) FROM dbo.orders;

UPDATE dbo.customers SET name = 'Bob' WHERE id = 1;

DELETE FROM dbo.orders WHERE id = 1;

CREATE TABLE dbo.customers (
    id INT PRIMARY KEY,
    name NVARCHAR(100) NOT NULL
);

CREATE TABLE dbo.orders (
    id INT PRIMARY KEY,
    customer_id INT NOT NULL
);

CREATE TABLE dbo.order_items (
    id INT PRIMARY KEY,
    order_id INT NOT NULL,
    quantity INT NOT NULL
);

CREATE VIEW dbo.customer_orders AS
SELECT c.id, o.id AS order_id FROM dbo.customers c JOIN dbo.orders o ON o.customer_id = c.id;

CREATE VIEW dbo.large_orders AS
SELECT order_id FROM dbo.order_items WHERE quantity > 10;

CREATE FUNCTION dbo.order_count(@customer INT) RETURNS INT AS BEGIN RETURN 1 END;

CREATE TRIGGER dbo.trg_orders_insert ON dbo.orders AFTER INSERT AS BEGIN SELECT 1 END;

CREATE INDEX ix_orders_customer ON dbo.orders (customer_id);

CREATE INDEX ix_items_order ON dbo.order_items (order_id);

CREATE SEQUENCE dbo.order_numbers START WITH 1 INCREMENT BY 1;
"#;

#[test]
fn sql_sample_core_statements() {
    let chunks = sql_chunks("sample_sql.sql", SAMPLE_SQL);
    assert!(chunks.len() >= 16);
    let tables = sql_of_type(&chunks, "CREATE TABLE");
    assert_eq!(tables.len(), 3);
    assert_eq!(
        sql_obj_names(&tables),
        HashSet::from(["customers".into(), "orders".into(), "order_items".into()])
    );
    let customers = tables
        .iter()
        .find(|c| matches!(&c.kind, CodeChunkKind::Sql(f) if f.object_name.as_deref() == Some("customers")))
        .unwrap();
    let CodeChunkKind::Sql(cf) = &customers.kind else { panic!() };
    assert_eq!(cf.schema_name.as_deref(), Some("dbo"));
    assert!(customers.code.contains("PRIMARY KEY"));

    assert_eq!(sql_of_type(&chunks, "CREATE VIEW").len(), 2);
    assert_eq!(sql_of_type(&chunks, "CREATE FUNCTION").len(), 1);
    assert_eq!(sql_of_type(&chunks, "CREATE TRIGGER").len(), 1);
    assert_eq!(sql_of_type(&chunks, "CREATE INDEX").len(), 2);
    assert_eq!(sql_of_type(&chunks, "CREATE SEQUENCE").len(), 1);
    let types: HashSet<_> = chunks
        .iter()
        .filter_map(|c| match &c.kind {
            CodeChunkKind::Sql(f) => f.statement_type.clone(),
            _ => None,
        })
        .collect();
    for t in ["INSERT", "SELECT", "UPDATE", "DELETE"] {
        assert!(types.contains(t), "missing {t}");
    }
}

/// A T-SQL schema script for database `SFA`: 22 tables, 24 views, 4
/// procedures and 11 `ALTER TABLE` statements, batches separated by `GO`.
fn sfa_schema() -> String {
    let mut s = String::from("USE [SFA]\nGO\nSET ANSI_NULLS ON\nGO\nSET QUOTED_IDENTIFIER ON\nGO\n");
    for i in 0..22 {
        s.push_str(&format!(
            "CREATE TABLE [dbo].[Table{i}](\n    [Id] [int] NOT NULL,\n    [Name] [nvarchar](50) NULL\n) ON [PRIMARY]\nGO\n"
        ));
    }
    for i in 0..24 {
        s.push_str(&format!(
            "CREATE VIEW [dbo].[View{i}]\nAS\nSELECT [Id], [Name] FROM [dbo].[Table{}]\nGO\n",
            i % 22
        ));
    }
    for i in 0..4 {
        s.push_str(&format!(
            "CREATE PROCEDURE [dbo].[Proc{i}]\nAS\nBEGIN\n    SELECT [Id] FROM [dbo].[Table{i}]\nEND\nGO\n"
        ));
    }
    for i in 0..11 {
        s.push_str(&format!(
            "ALTER TABLE [dbo].[Table{i}] ADD CONSTRAINT [PK_Table{i}] PRIMARY KEY ([Id])\nGO\n"
        ));
    }
    s
}

#[test]
fn sql_sfa_schema_counts_and_metadata() {
    let schema = sfa_schema();
    let chunks = sql_chunks("SFA_Schema.sql", &schema);
    assert_eq!(chunks.len(), 61);
    assert_eq!(sql_of_type(&chunks, "CREATE TABLE").len(), 22);
    assert_eq!(sql_of_type(&chunks, "CREATE VIEW").len(), 24);
    assert_eq!(sql_of_type(&chunks, "CREATE PROCEDURE").len(), 4);
    assert_eq!(sql_of_type(&chunks, "ALTER TABLE").len(), 11);
    assert!(!chunks.iter().any(|c| {
        matches!(&c.kind, CodeChunkKind::Sql(f) if f.statement_type.as_deref().map(|s| s.eq_ignore_ascii_case("MERGE")).unwrap_or(false))
    }));
    for c in &chunks {
        let CodeChunkKind::Sql(f) = &c.kind else { panic!() };
        assert_eq!(f.database_name.as_deref(), Some("SFA"));
        assert_eq!(f.schema_name.as_deref(), Some("dbo"));
        assert!(!c.code.lines().any(|l| l.trim().eq_ignore_ascii_case("GO")));
        assert!(!c.code.to_uppercase().contains("SET ANSI_NULLS"));
    }
}

const SAMPLE_POSTGRESQL: &str = r#"CREATE EXTENSION IF NOT EXISTS "uuid-ossp";

CREATE EXTENSION IF NOT EXISTS pgcrypto;

CREATE SCHEMA app;

CREATE TYPE app.order_status AS ENUM ('open', 'closed');

CREATE TYPE app.address AS (street TEXT, city TEXT);

CREATE SEQUENCE app.invoice_numbers START 1000;

CREATE TABLE app.customers (
    id UUID PRIMARY KEY DEFAULT uuid_generate_v4(),
    name TEXT NOT NULL
);

CREATE TABLE app.orders (
    id BIGSERIAL PRIMARY KEY,
    customer_id UUID REFERENCES app.customers(id),
    status app.order_status NOT NULL DEFAULT 'open'
);

CREATE TABLE app.audit_log (
    id BIGSERIAL PRIMARY KEY,
    table_name TEXT NOT NULL,
    changed_at TIMESTAMPTZ NOT NULL DEFAULT now()
);

CREATE INDEX idx_orders_customer ON app.orders (customer_id);

CREATE INDEX idx_orders_status ON app.orders (status);

CREATE VIEW app.open_orders AS
SELECT id, customer_id FROM app.orders WHERE status = 'open';

CREATE POLICY customers_owner ON app.customers USING (true);

CREATE POLICY orders_owner ON app.orders USING (true);

CREATE OR REPLACE FUNCTION app.touch() RETURNS trigger AS $$
BEGIN
    NEW.changed_at := now();
    RETURN NEW;
END;
$$ LANGUAGE plpgsql;

CREATE OR REPLACE FUNCTION app.create_audit_trigger(tbl TEXT) RETURNS void AS $fn$
BEGIN
    EXECUTE format($body$
        CREATE TRIGGER audit AFTER INSERT ON %I
        FOR EACH ROW EXECUTE FUNCTION app.touch();
    $body$, tbl);
END;
$fn$ LANGUAGE plpgsql;

CREATE TRIGGER orders_touch BEFORE UPDATE ON app.orders
FOR EACH ROW EXECUTE FUNCTION app.touch();

GRANT SELECT ON app.open_orders TO reporting;
"#;

const SAMPLE_ORACLE: &str = r#"CREATE TABLESPACE sales_data DATAFILE 'sales01.dbf' SIZE 100M;

CREATE SEQUENCE sales.order_seq START WITH 1 INCREMENT BY 1;

CREATE SEQUENCE sales.customer_seq START WITH 1 INCREMENT BY 1;

CREATE TABLE sales.customers (
    id NUMBER PRIMARY KEY,
    name VARCHAR2(100) NOT NULL
);

CREATE TABLE sales.orders (
    id NUMBER PRIMARY KEY,
    customer_id NUMBER REFERENCES sales.customers(id)
);

CREATE TABLE sales.order_lines (
    id NUMBER PRIMARY KEY,
    order_id NUMBER REFERENCES sales.orders(id)
);

CREATE INDEX sales.idx_orders_customer ON sales.orders (customer_id);

CREATE INDEX sales.idx_lines_order ON sales.order_lines (order_id);

CREATE VIEW sales.customer_orders AS
SELECT c.name, o.id FROM sales.customers c JOIN sales.orders o ON o.customer_id = c.id;

CREATE SYNONYM orders_syn FOR sales.orders;

CREATE OR REPLACE TRIGGER sales.orders_bi
BEFORE INSERT ON sales.orders
FOR EACH ROW
BEGIN
    :NEW.id := sales.order_seq.NEXTVAL;
END;
/

CREATE OR REPLACE PROCEDURE sales.close_order(p_id IN NUMBER) AS
BEGIN
    UPDATE sales.orders SET id = id WHERE id = p_id;
END;
/

CREATE OR REPLACE FUNCTION sales.order_count RETURN NUMBER AS
    n NUMBER := 0;
BEGIN
    RETURN n;
END;
/

CREATE OR REPLACE PACKAGE sales.order_api AS
    PROCEDURE place(p_customer IN NUMBER);
END order_api;
/

CREATE OR REPLACE PACKAGE BODY sales.order_api AS
    PROCEDURE place(p_customer IN NUMBER) IS
    BEGIN
        NULL;
    END place;
END order_api;
/
"#;

const SAMPLE_SQLITE: &str = r#"ATTACH DATABASE 'analytics.db' AS analytics;

CREATE TABLE users (
    id INTEGER PRIMARY KEY AUTOINCREMENT,
    email TEXT NOT NULL UNIQUE
);

CREATE TABLE posts (
    id INTEGER PRIMARY KEY,
    user_id INTEGER NOT NULL REFERENCES users(id),
    body TEXT
);

CREATE TABLE comments (
    id INTEGER PRIMARY KEY,
    post_id INTEGER NOT NULL REFERENCES posts(id),
    body TEXT
);

CREATE TABLE tags (
    id INTEGER PRIMARY KEY,
    name TEXT NOT NULL
);

CREATE TABLE analytics.page_views (
    id INTEGER PRIMARY KEY,
    path TEXT NOT NULL
);

CREATE TABLE analytics.sessions (
    id INTEGER PRIMARY KEY,
    started_at TEXT NOT NULL
);

CREATE VIRTUAL TABLE posts_fts USING fts5(body);

CREATE INDEX idx_posts_user ON posts (user_id);

CREATE INDEX idx_comments_post ON comments (post_id);

CREATE INDEX idx_tags_name ON tags (name);

CREATE INDEX idx_users_email ON users (email);

CREATE TRIGGER posts_ai AFTER INSERT ON posts BEGIN
    INSERT INTO posts_fts (rowid, body) VALUES (new.id, new.body);
END;

CREATE TRIGGER posts_ad AFTER DELETE ON posts BEGIN
    DELETE FROM posts_fts WHERE rowid = old.id;
END;

CREATE TRIGGER posts_au AFTER UPDATE ON posts BEGIN
    UPDATE posts_fts SET body = new.body WHERE rowid = old.id;
END;

CREATE TRIGGER comments_ad AFTER DELETE ON posts BEGIN
    DELETE FROM comments WHERE post_id = old.id;
END;

CREATE TRIGGER users_ad AFTER DELETE ON users BEGIN
    DELETE FROM posts WHERE user_id = old.id;
END;
"#;

fn sql_summary(chunks: &[CodeChunk]) -> Vec<String> {
    chunks
        .iter()
        .map(|c| match &c.kind {
            CodeChunkKind::Sql(f) => format!("{:?} {:?} {:?}", f.statement_type, f.schema_name, f.object_name),
            _ => String::new(),
        })
        .collect()
}

#[test]
fn sql_postgresql_oracle_sqlite_dialects() {
    let pg = sql_chunks("sample_postgresql.sql", SAMPLE_POSTGRESQL);
    let pgs = sql_summary(&pg);
    assert_eq!(pg.len(), 18, "{pgs:#?}");
    assert_eq!(sql_of_type(&pg, "CREATE EXTENSION").len(), 2, "{pgs:#?}");
    assert_eq!(sql_of_type(&pg, "CREATE TYPE").len(), 2, "{pgs:#?}");
    assert_eq!(sql_of_type(&pg, "CREATE TABLE").len(), 3, "{pgs:#?}");
    assert_eq!(sql_of_type(&pg, "CREATE POLICY").len(), 2, "{pgs:#?}");
    let funcs = sql_of_type(&pg, "CREATE OR REPLACE FUNCTION");
    assert_eq!(funcs.len(), 2, "{pgs:#?}");
    let audit = funcs
        .iter()
        .find(|c| matches!(&c.kind, CodeChunkKind::Sql(f) if f.object_name.as_deref() == Some("create_audit_trigger")))
        .unwrap();
    assert!(audit.code.contains("$fn$"));
    assert!(audit.code.contains("$body$"));

    let ora = sql_chunks("sample_oracle.sql", SAMPLE_ORACLE);
    let oras = sql_summary(&ora);
    assert_eq!(ora.len(), 15, "{oras:#?}");
    assert_eq!(sql_of_type(&ora, "CREATE TABLESPACE").len(), 1, "{oras:#?}");
    assert_eq!(sql_of_type(&ora, "CREATE SEQUENCE").len(), 2, "{oras:#?}");
    assert!(ora.iter().any(|c| matches!(&c.kind, CodeChunkKind::Sql(f) if f.statement_type.as_deref() == Some("CREATE OR REPLACE PACKAGE"))), "{oras:#?}");
    assert!(ora.iter().any(|c| matches!(&c.kind, CodeChunkKind::Sql(f) if f.statement_type.as_deref() == Some("CREATE OR REPLACE PACKAGE BODY"))), "{oras:#?}");
    for c in &ora {
        assert!(!c.code.lines().any(|l| l.trim() == "/"), "{}", c.code);
    }

    let lite = sql_chunks("sample_sqlite.sql", SAMPLE_SQLITE);
    let lites = sql_summary(&lite);
    assert_eq!(lite.len(), 16, "{lites:#?}");
    assert_eq!(sql_of_type(&lite, "CREATE TABLE").len(), 6, "{lites:#?}");
    assert_eq!(sql_of_type(&lite, "CREATE VIRTUAL TABLE").len(), 1, "{lites:#?}");
    assert_eq!(sql_of_type(&lite, "CREATE TRIGGER").len(), 5, "{lites:#?}");
    assert_eq!(sql_of_type(&lite, "CREATE INDEX").len(), 4, "{lites:#?}");
    let analytics: Vec<_> = lite
        .iter()
        .filter(|c| matches!(&c.kind, CodeChunkKind::Sql(f) if f.schema_name.as_deref() == Some("analytics")))
        .collect();
    assert_eq!(analytics.len(), 2, "{lites:#?}");
}
