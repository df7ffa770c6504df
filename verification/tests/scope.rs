use spice_connectors::neo4j::scope::{
    blank_literals, bracket_then_paren, cypher_label, enforce_scope, end_of_literal, linked_paren,
    preceding_word, reject_unscopable, rewrite_match_patterns, rewrite_node_inner, scope_label,
    take_balanced_paren, top_level_brace,
};

const S: &str = "asst_x";

fn ok(cypher: &str) -> String {
    enforce_scope(cypher, S).expect("should be scopable")
}

#[test]
fn injects_into_labeled_node() {
    assert_eq!(
        ok("MATCH (n:Chunk) RETURN n.id AS id"),
        "MATCH (n:Chunk:`asst_x`) RETURN n.id AS id"
    );
}

#[test]
fn injects_into_bare_and_anonymous_nodes() {
    assert_eq!(ok("MATCH (n) RETURN n.id AS id"), "MATCH (n:`asst_x`) RETURN n.id AS id");
    assert_eq!(ok("MATCH () RETURN 1 AS x"), "MATCH (:`asst_x`) RETURN 1 AS x");
    assert_eq!(ok("MATCH (:Entity) RETURN 1 AS x"), "MATCH (:Entity:`asst_x`) RETURN 1 AS x");
}

#[test]
fn injects_before_property_map() {
    assert_eq!(
        ok("MATCH (n:Entity {name:'intel'}) RETURN n.name AS name"),
        "MATCH (n:Entity:`asst_x` {name:'intel'}) RETURN n.name AS name"
    );
}

#[test]
fn scopes_both_ends_of_a_relationship_traversal() {
    assert_eq!(
        ok("MATCH (a:Chunk)-[:NEXT*1..3]->(b:Chunk) RETURN a.id AS f, b.id AS t"),
        "MATCH (a:Chunk:`asst_x`)-[:NEXT*1..3]->(b:Chunk:`asst_x`) RETURN a.id AS f, b.id AS t"
    );
}

#[test]
fn scopes_optional_match_and_multiple_clauses() {
    assert_eq!(
        ok("MATCH (a:Doc) OPTIONAL MATCH (a)-[:HAS]->(b) RETURN a.id AS i, b.id AS j"),
        "MATCH (a:Doc:`asst_x`) OPTIONAL MATCH (a:`asst_x`)-[:HAS]->(b:`asst_x`) RETURN a.id AS i, b.id AS j"
    );
}

#[test]
fn leaves_return_functions_and_groupings_untouched() {
    assert_eq!(
        ok("MATCH (n:Chunk) RETURN count(n) AS c, (1 + 2) AS s"),
        "MATCH (n:Chunk:`asst_x`) RETURN count(n) AS c, (1 + 2) AS s"
    );
}

#[test]
fn does_not_touch_parens_inside_string_literals() {
    assert_eq!(
        ok("MATCH (n:Chunk) WHERE n.name = '(not a node)' RETURN n.id AS id"),
        "MATCH (n:Chunk:`asst_x`) WHERE n.name = '(not a node)' RETURN n.id AS id"
    );
}

#[test]
fn where_clause_grouping_not_scoped() {
    assert_eq!(
        ok("MATCH (n:E) WHERE (n.a = 1 OR n.b = 2) RETURN n.id AS id"),
        "MATCH (n:E:`asst_x`) WHERE (n.a = 1 OR n.b = 2) RETURN n.id AS id"
    );
}

#[test]
fn rejects_procedure_calls() {
    for q in [
        "CALL db.labels() YIELD label RETURN label",
        "MATCH (n:E) CALL apoc.path.expand(n,'','',0,3) YIELD path RETURN path",
        "CALL db.index.fulltext.queryNodes('e_ft','intel') YIELD node RETURN node.name AS n",
    ] {
        assert!(enforce_scope(q, S).is_err(), "must reject: {q}");
    }
}

#[test]
fn rejects_inline_apoc_and_db_functions() {
    assert!(enforce_scope(
        "MATCH (n:E) RETURN apoc.text.join(collect(n.name),',') AS names", S
    )
    .is_err());
    assert!(enforce_scope("MATCH (n:E) WHERE n.id IN db.foo() RETURN n.id AS id", S).is_err());
}

#[test]
fn rejects_union_subqueries_and_comprehensions() {
    for q in [
        "MATCH (a:E) RETURN a.id AS id UNION MATCH (b:F) RETURN b.id AS id",
        "MATCH (a:E) WHERE EXISTS { MATCH (a)-[:R]->(:F) } RETURN a.id AS id",
        "MATCH (a:E) RETURN COUNT { (a)-[:R]->() } AS c",
        "MATCH (a:E) RETURN [ (a)-[:R]->(b) | b.id ] AS ids",
        "MATCH p = shortestPath((a:E)-[*]-(b:E)) RETURN p",
    ] {
        assert!(enforce_scope(q, S).is_err(), "must reject: {q}");
    }
}

#[test]
fn rejects_inline_where_in_node_pattern() {
    assert!(enforce_scope("MATCH (n:E WHERE n.x > 1) RETURN n.id AS id", S).is_err());
}

#[test]
fn write_words_inside_literals_do_not_break_scoping() {
    // 'union' / 'call' inside a string must not trigger a reject.
    assert_eq!(
        ok("MATCH (n:E) WHERE n.note = 'call the union rep' RETURN n.id AS id"),
        "MATCH (n:E:`asst_x`) WHERE n.note = 'call the union rep' RETURN n.id AS id"
    );
}

#[test]
fn property_named_like_keyword_not_rejected() {
    // `.db_id` and `union_flag` are identifiers, not the db./UNION constructs.
    assert_eq!(
        ok("MATCH (n:E) WHERE n.union_flag = 1 RETURN n.id AS id"),
        "MATCH (n:E:`asst_x`) WHERE n.union_flag = 1 RETURN n.id AS id"
    );
}

#[test]
fn scope_label_is_trimmed_and_blank_is_none() {
    assert_eq!(scope_label(&None), None);
    assert_eq!(scope_label(&Some(" \t ".to_string())), None);
    assert_eq!(scope_label(&Some("  asst_42 \n".to_string())), Some("asst_42".to_string()));
    // A space of Unicode is white space too.
    assert_eq!(scope_label(&Some("\u{a0}asst_42\u{3000}".to_string())), Some("asst_42".to_string()));
}

#[test]
fn backticks_in_a_label_are_doubled() {
    assert_eq!(cypher_label("a`b"), "`a``b`");
    assert_eq!(
        enforce_scope("MATCH (n) RETURN n", "a`b").unwrap(),
        "MATCH (n:`a``b`) RETURN n"
    );
}

#[test]
fn literals_are_blanked_but_keep_their_place() {
    let blanked = |s: &str| -> String {
        blank_literals(&s.chars().collect::<Vec<char>>()).into_iter().collect()
    };
    assert_eq!(blanked("a 'b c' d"), "a       d");
    assert_eq!(blanked(r"x = 'it\'s' y"), "x =         y");
}

#[test]
fn label_expressions_and_grouped_patterns_are_refused() {
    assert_eq!(
        enforce_scope("MATCH (n:A|B) RETURN n", S).unwrap_err(),
        "graph_query(): label-expression syntax (& | !) inside a node pattern is not supported under tenant scoping"
    );
    assert_eq!(
        enforce_scope("MATCH (n:E WHERE n.x > 1) RETURN n.id AS id", S).unwrap_err(),
        "graph_query(): inline WHERE inside a node pattern is not supported under tenant scoping"
    );
    assert!(enforce_scope("MATCH ((a)-[:R]->(b)){1,3} RETURN a", S).is_err());
    let grouped =
        "graph_query(): grouped/quantified path patterns are not supported under tenant scoping";
    assert_eq!(enforce_scope("MATCH ((a)) RETURN a", S).unwrap_err(), grouped);
    assert_eq!(enforce_scope("MATCH (p = (a)) RETURN a", S).unwrap_err(), grouped);
    assert_eq!(
        ok("MATCH (a {k: abs(1)}), (`(`), (b:$(x)) RETURN a.load AS load"),
        "MATCH (a:`asst_x` {k: abs(1)}), (`(`:`asst_x`), (b:$(x):`asst_x`) RETURN a.load AS load"
    );
    assert!(enforce_scope("MATCH (n RETURN n", S).is_err());
}

#[test]
fn what_can_be_scoped_is_not_refused() {
    assert!(reject_unscopable("MATCH (n) RETURN n").is_ok());
    assert!(reject_unscopable("CALL db.labels()").is_err());
    assert!(reject_unscopable("RETURN 'CALL db.labels()'").is_ok());
}

#[test]
fn a_statement_is_only_changed_in_its_node_patterns() {
    let q = "MATCH (a:Chunk)-[r:NEXT {w: 1}]->(b) WHERE a.x IN [1, 2] RETURN a, {k: 'MATCH (z)'} AS m";
    let scoped = ok(q);
    assert_eq!(scoped.replace(":`asst_x`", ""), q);
    assert_eq!(scoped.matches(":`asst_x`").count(), 2);
}

#[test]
fn a_scoped_statement_is_read_as_scoped() {
    let once = enforce_scope(
        "MATCH (a {k: '(x)'})-[:R]->(b:B) WHERE (a.n > 1) RETURN count(b) AS n",
        "t",
    )
    .unwrap();
    assert_eq!(
        once,
        "MATCH (a:`t` {k: '(x)'})-[:R]->(b:B:`t`) WHERE (a.n > 1) RETURN count(b) AS n"
    );
    let twice = enforce_scope(&once, "u").unwrap();
    assert_eq!(
        twice,
        "MATCH (a:`t`:`u` {k: '(x)'})-[:R]->(b:B:`t`:`u`) WHERE (a.n > 1) RETURN count(b) AS n"
    );
    // A label that holds quotes is still one label.
    let quoted = enforce_scope("MATCH (a), (b) RETURN a", "x``y`").unwrap();
    assert_eq!(quoted, "MATCH (a:`x````y```), (b:`x````y```) RETURN a");
    assert_eq!(
        enforce_scope(&quoted, "v").unwrap(),
        "MATCH (a:`x````y```:`v`), (b:`x````y```:`v`) RETURN a"
    );
}

fn refusal(cypher: &str) -> String {
    enforce_scope(cypher, S).expect_err("should be refused")
}

fn chars(s: &str) -> Vec<char> {
    s.chars().collect()
}

#[test]
fn comments_are_refused() {
    let message = "graph_query(): comments are not allowed under tenant scoping";
    for q in [
        "MATCH (a) /* ' */ MATCH (b) RETURN b.id AS i /* ' */",
        "MATCH (a) // '\nMATCH (b) RETURN b.id AS i // '",
        "MATCH (a) /* RETURN */ , (b) RETURN b.id AS i",
        "MATCH (a /* ) */ :X) RETURN a",
    ] {
        assert_eq!(refusal(q), message, "{q}");
    }
    // A slash alone opens none, nor do two in a literal.
    assert_eq!(
        ok("MATCH (a) WHERE a.u = 'http://x/*' RETURN a.n / 2 AS h"),
        "MATCH (a:`asst_x`) WHERE a.u = 'http://x/*' RETURN a.n / 2 AS h"
    );
}

#[test]
fn a_comprehension_that_names_its_path_is_refused() {
    let message = "graph_query(): patterns outside of MATCH are not allowed under tenant scoping";
    assert_eq!(refusal("MATCH (a:E) RETURN [p = (a)-[:R]->(b) | b.id] AS ids"), message);
    assert!(linked_paren(&chars("[p = (a)-[:R]->(b) | b.id]")));
    assert!(!linked_paren(&chars("[x IN (xs) | x - 1]")));
    assert!(bracket_then_paren(&chars("[ (a)--(b) | 1]")));
    assert!(!bracket_then_paren(&chars("[p = (a)--(b) | 1]")));
}

#[test]
fn a_keyword_that_names_a_path_is_no_clause() {
    assert_eq!(
        ok("MATCH order = (a)-->(b) RETURN a.id AS id"),
        "MATCH order = (a:`asst_x`)-->(b:`asst_x`) RETURN a.id AS id"
    );
    assert_eq!(
        ok("MATCH (a), limit = (b)--(c) RETURN a"),
        "MATCH (a:`asst_x`), limit = (b:`asst_x`)--(c:`asst_x`) RETURN a"
    );
}

#[test]
fn a_property_named_match_opens_no_patterns() {
    assert_eq!(
        ok("MATCH (n:E) RETURN n.match AS m, (1 + 2) AS s"),
        "MATCH (n:E:`asst_x`) RETURN n.match AS m, (1 + 2) AS s"
    );
    assert_eq!(
        ok("MATCH (n:E) WHERE n.order = 1 RETURN n.limit AS l, (1) AS s"),
        "MATCH (n:E:`asst_x`) WHERE n.order = 1 RETURN n.limit AS l, (1) AS s"
    );
}

#[test]
fn a_clause_begins_after_what_can_end_an_expression() {
    for (q, scoped) in [
        ("RETURN * MATCH (b) RETURN b", "RETURN * MATCH (b:`asst_x`) RETURN b"),
        ("RETURN 1 AS x; MATCH (b) RETURN b", "RETURN 1 AS x; MATCH (b:`asst_x`) RETURN b"),
        (
            "MATCH (a) WITH a WHERE a:% MATCH (b) RETURN b",
            "MATCH (a:`asst_x`) WITH a WHERE a:% MATCH (b:`asst_x`) RETURN b",
        ),
        (
            "WITH 1 AS x WHERE x IS :: LIST<INTEGER> MATCH (b) RETURN b",
            "WITH 1 AS x WHERE x IS :: LIST<INTEGER> MATCH (b:`asst_x`) RETURN b",
        ),
        ("WITH 'x' AS `y` MATCH (b) RETURN b", "WITH 'x' AS `y` MATCH (b:`asst_x`) RETURN b"),
    ] {
        assert_eq!(ok(q), scoped);
    }
}

#[test]
fn a_word_in_doubt_is_refused() {
    for (q, word) in [
        ("MATCH ANY SHORTEST (a)-->(b) RETURN a", "MATCH"),
        ("MATCH (a) USING INDEX a:E(x) RETURN a", "USING"),
        ("RETURN 1 + MATCH (b) RETURN b", "MATCH"),
        ("RETURN n.match p = (b)", "match"),
        ("RETURN 1MATCH (b) RETURN b", "1MATCH"),
        ("RETURN $1 + 2.5match (b) RETURN b", "5match"),
        ("USE other MATCH (b) RETURN b", "USE"),
        ("SHOW INDEXES YIELD name", "SHOW"),
        ("WITH 1 AS x LOAD csv FROM 'file:///x' AS row RETURN row", "LOAD"),
    ] {
        assert_eq!(
            refusal(q),
            format!(
                "graph_query(): '{word}' is not supported at this place under tenant scoping"
            ),
            "{q}"
        );
    }
}

#[test]
fn white_space_may_follow_a_dot() {
    assert_eq!(
        ok("MATCH (n) RETURN n. name AS x, n.x1. y AS y, 1. AS z"),
        "MATCH (n:`asst_x`) RETURN n. name AS x, n.x1. y AS y, 1. AS z"
    );
    assert_eq!(
        refusal("RETURN 1. MATCH ANY (b) RETURN b"),
        "graph_query(): a number that ends in '.' before a MATCH is not allowed under tenant scoping"
    );
}

#[test]
fn a_column_may_be_named_match() {
    assert_eq!(
        ok("MATCH (n) RETURN n.x AS match ORDER BY match LIMIT 3"),
        "MATCH (n:`asst_x`) RETURN n.x AS match ORDER BY match LIMIT 3"
    );
    assert_eq!(
        ok("MATCH (n) WITH n AS match MATCH (b) RETURN (match.x) AS x"),
        "MATCH (n:`asst_x`) WITH n AS match MATCH (b:`asst_x`) RETURN (match.x) AS x"
    );
}

#[test]
fn a_match_within_brackets_is_refused() {
    assert_eq!(
        refusal("WITH 1 AS x { MATCH (b) RETURN b.id AS i }"),
        "graph_query(): a MATCH within brackets is not allowed under tenant scoping"
    );
    assert_eq!(
        ok("MATCH (n) RETURN n {.match, match: 1} AS m"),
        "MATCH (n:`asst_x`) RETURN n {.match, match: 1} AS m"
    );
}

#[test]
fn only_a_round_bracket_closes_a_node() {
    let message = "graph_query(): unbalanced '(' in a MATCH pattern";
    assert_eq!(take_balanced_paren(&vec!['(', 'n', ']'], 0), Err(message.to_string()));
    assert_eq!(take_balanced_paren(&chars("(n {a: [1)})"), 0), Err(message.to_string()));
    assert_eq!(take_balanced_paren(&chars("x(n {a: ')'})y"), 1), Ok((chars("n {a: ')'}"), 13)));
    assert_eq!(refusal("MATCH (n] RETURN n"), message);
}

#[test]
fn a_backslash_in_a_quoted_identifier_is_refused() {
    let message =
        "graph_query(): a backslash in a quoted identifier is not allowed under tenant scoping";
    assert_eq!(refusal(r"MATCH (a) WITH a AS `\` MATCH (b) RETURN b.id AS `c`"), message);
    assert_eq!(refusal(r"MATCH (a:`x\u0060y`) RETURN a"), message);
    // It does not escape the backtick that closes.
    assert_eq!(end_of_literal(&chars(r"`\` x"), 1, '`'), 3);
    assert_eq!(end_of_literal(&chars(r"'\' x'"), 1, '\''), 6);
}

#[test]
fn a_pattern_in_a_condition_is_refused() {
    let message = "graph_query(): patterns outside of MATCH are not allowed under tenant scoping";
    for q in [
        "MATCH (a:E) WHERE (a)-[:R]->(:F) RETURN a.id AS id",
        "MATCH (a:E) WHERE NOT (a) <-- (:F) RETURN a.id AS id",
        "MATCH (a:E) WHERE size((a)--()) > 1 RETURN a.id AS id",
        "MATCH (a:E {x: (b)-->(c)}) RETURN a.id AS id",
        "MATCH (a:E) WHERE (a)--(:F) RETURN a.id AS id",
        "MATCH (a:E) WHERE (a)<-[:R]-(:F) RETURN a.id AS id",
        "MATCH (a:E) WHERE (a) <-->(:F) RETURN a.id AS id",
    ] {
        assert_eq!(refusal(q), message, "{q}");
    }
    // A sign after a comparison or after another sign is no relationship.
    for (q, scoped) in [
        (
            "MATCH (a) WHERE (a.x) - 1 < (a.y) RETURN a",
            "MATCH (a:`asst_x`) WHERE (a.x) - 1 < (a.y) RETURN a",
        ),
        (
            "MATCH (n) WHERE toFloat(n.lat) < -10 RETURN n",
            "MATCH (n:`asst_x`) WHERE toFloat(n.lat) < -10 RETURN n",
        ),
        ("RETURN (1) < -2 AS x", "RETURN (1) < -2 AS x"),
        ("RETURN (1) < -(2) AS x", "RETURN (1) < -(2) AS x"),
        ("RETURN (1) - -2 AS x, (1)<--2 AS y", "RETURN (1) - -2 AS x, (1)<--2 AS y"),
        (
            "MATCH (n {x: (1) < -2}) RETURN n",
            "MATCH (n:`asst_x` {x: (1) < -2}) RETURN n",
        ),
    ] {
        assert_eq!(ok(q), scoped);
    }
}

#[test]
fn namespaces_are_refused_however_they_are_written() {
    let apoc =
        "graph_query(): procedure/function namespace 'apoc.' is not allowed under tenant scoping";
    for q in [
        "MATCH (n) RETURN apoc.version() AS v",
        "MATCH (n) RETURN `apoc`.version() AS v",
        "MATCH (n) RETURN `APOC` .version() AS v",
        "MATCH (n) RETURN apoc .version() AS v",
    ] {
        assert_eq!(refusal(q), apoc, "{q}");
    }
    assert_eq!(refusal("MATCH (n) RETURN `apoc.version`() AS v"), apoc);
    assert_eq!(
        ok("MATCH (n) RETURN `count`(n) AS v"),
        "MATCH (n:`asst_x`) RETURN `count`(n) AS v"
    );
    assert_eq!(
        ok("MATCH (`n`) WHERE `n`.x > .5 RETURN n {.a, .b} AS `db.apoc.x`"),
        "MATCH (`n`:`asst_x`) WHERE `n`.x > .5 RETURN n {.a, .b} AS `db.apoc.x`"
    );
}

#[test]
fn escapes_and_characters_in_doubt_are_refused() {
    let escape = "graph_query(): a quote or a backslash as a Unicode escape is not allowed under tenant scoping";
    for q in [
        r"MATCH (a) WHERE a.x = '\u0027 MATCH (b) RETURN b' RETURN a",
        r"MATCH (a) WHERE a.x = '\u0022' RETURN a",
        r"MATCH (a) WHERE a.x = '\u005C' RETURN a",
    ] {
        assert_eq!(refusal(q), escape, "{q}");
    }
    assert_eq!(
        ok(r"MATCH (a) WHERE a.x = 'caf\u00e9' OR a.x = 'C:\\users' RETURN a"),
        r"MATCH (a:`asst_x`) WHERE a.x = 'caf\u00e9' OR a.x = 'C:\\users' RETURN a"
    );
    let plain =
        "graph_query(): only plain characters are allowed outside of quotes under tenant scoping";
    assert_eq!(refusal("MATCH (a)\u{a0}RETURN a"), plain);
    assert_eq!(refusal("MATCH (a) WHERE (a)\u{2013}[:R]->(b) RETURN a"), plain);
    assert_eq!(refusal(r"M\u0041TCH (a) RETURN a"), plain);
    // Letters of any script may stand anywhere, and anything may stand in a string.
    assert_eq!(
        ok("MATCH (é:Größe) WHERE é.x = '–\u{a0}' RETURN é"),
        "MATCH (é:Größe:`asst_x`) WHERE é.x = '–\u{a0}' RETURN é"
    );
}

#[test]
fn brackets_have_to_be_balanced() {
    let message = "graph_query(): unbalanced parentheses/brackets";
    assert_eq!(refusal("MATCH (a) RETURN a) MATCH (b"), message);
    assert_eq!(refusal("MATCH (a) RETURN [a"), message);
    assert_eq!(refusal("MATCH f(a) RETURN a"), "graph_query(): 'MATCH' is not supported at this place under tenant scoping");
}

#[test]
fn a_label_of_any_text_stays_one_label() {
    for (label, quoted) in [
        ("a\\", "`a\\`"),
        ("x') MATCH (b) //", "`x') MATCH (b) //`"),
        ("`", "````"),
        ("/*", "`/*`"),
    ] {
        assert_eq!(
            enforce_scope("MATCH (n:A {k: 1})-->(m) RETURN n", label).unwrap(),
            format!("MATCH (n:A:{quoted} {{k: 1}})-->(m:{quoted}) RETURN n")
        );
    }
}

#[test]
fn a_statement_without_patterns_is_unchanged() {
    for q in ["RETURN 1 AS x", "UNWIND [1, 2] AS x RETURN (x) AS y, 'MATCH (z)' AS z", ""] {
        assert_eq!(ok(q), q);
    }
}

#[test]
fn the_parts_of_a_rewrite() {
    assert_eq!(rewrite_node_inner(&chars(" n :A { k : 1 } "), S).unwrap(), "n :A:`asst_x` { k : 1 }");
    assert!(rewrite_node_inner(&chars("n:A&B"), S).is_err());
    assert_eq!(top_level_brace(&chars("n:`{`{k:{}}")), Some(5));
    assert_eq!(top_level_brace(&chars("n[{}]")), None);
    assert_eq!(preceding_word(&chars("a bc("), 4), "bc");
    assert_eq!(preceding_word(&chars("a ("), 2), "");
    assert_eq!(
        rewrite_match_patterns("MATCH(n) RETURN count(n) AS c", S).unwrap(),
        "MATCH(n:`asst_x`) RETURN count(n) AS c"
    );
    assert_eq!(
        rewrite_match_patterns("MATCH (a), p = f(b) RETURN a", S).unwrap_err(),
        "graph_query(): 'f' is not supported at this place under tenant scoping"
    );
}

#[test]
fn plain_read_statements_are_accepted() {
    for (q, scoped) in [
        (
            "MATCH (c:Chunk)-[:MENTIONS]->(e:Entity) RETURN e.name AS name, count(c) AS mentions ORDER BY mentions DESC LIMIT 10",
            "MATCH (c:Chunk:`asst_x`)-[:MENTIONS]->(e:Entity:`asst_x`) RETURN e.name AS name, count(c) AS mentions ORDER BY mentions DESC LIMIT 10",
        ),
        (
            "MATCH (n) UNWIND labels(n) AS s UNWIND keys(n) AS o RETURN DISTINCT s AS s, o AS o",
            "MATCH (n:`asst_x`) UNWIND labels(n) AS s UNWIND keys(n) AS o RETURN DISTINCT s AS s, o AS o",
        ),
        (
            "MATCH p = (a)-[*1..2]-(b)\nOPTIONAL MATCH q = (b)<-[:R]-(c), (d)\nWITH a, collect(c) AS cs WHERE size(cs) > 1\nRETURN [x IN cs | x.id] AS ids, CASE WHEN a.k <> 1 THEN 'y' ELSE \"n\" END AS f SKIP 1 LIMIT 2",
            "MATCH p = (a:`asst_x`)-[*1..2]-(b:`asst_x`)\nOPTIONAL MATCH q = (b:`asst_x`)<-[:R]-(c:`asst_x`), (d:`asst_x`)\nWITH a, collect(c) AS cs WHERE size(cs) > 1\nRETURN [x IN cs | x.id] AS ids, CASE WHEN a.k <> 1 THEN 'y' ELSE \"n\" END AS f SKIP 1 LIMIT 2",
        ),
    ] {
        assert_eq!(ok(q), scoped);
    }
}
