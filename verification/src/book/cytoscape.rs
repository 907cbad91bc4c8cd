//! The graph of actors and queues that a simulation's metrics show.
use vstd::prelude::*;
use crate::book::{file_name, md, path_file_name, sql, Context, ContextView, emit_path, copy_statement};

verus! {

/// The query that lists the actors and queues of the metrics in the file `p`
/// as graph nodes, and each push and pop as an edge between them.
pub open spec fn elements_query(p: Seq<char>) -> Seq<char> {
    "\n    SELECT DISTINCT\n        'nodes' AS \"group\",\n        to_json({\n            id: 'actor_' || attr_actor\n        }) AS data,\n        to_json([ 'actor' ]) AS classes\n    FROM read_parquet('"@ + p + "')\n    WHERE\n        name == 'pop' OR name == 'push'\n\n    UNION\n\n    SELECT DISTINCT\n        'nodes' AS \"group\",\n        to_json({\n            id: 'queue_' || attr_queue_name\n        }) AS data,\n        to_json([ 'queue' ]) AS classes\n    FROM read_parquet('"@ + p + "')\n    WHERE\n        name == 'pop' OR name == 'push'\n\n    UNION\n\n    SELECT DISTINCT\n        'edges' AS \"group\",\n        to_json({\n            source: 'queue_' || attr_queue_name,\n            target: 'actor_' || attr_actor\n        }) AS data,\n        to_json([ name ]) AS classes\n    FROM read_parquet('"@ + p + "')\n    WHERE\n        name == 'push'\n    \n    UNION\n\n    SELECT DISTINCT\n        'edges' AS \"group\",\n        to_json({\n            source: 'actor_' || attr_actor,\n            target: 'queue_' || attr_queue_name\n        }) AS data,\n        to_json([ name ]) AS classes\n    FROM read_parquet('"@ + p + "')\n    WHERE\n        name == 'pop'\n    "@
}

/// Asks for the graph elements of the metrics in the file `p` to be queried
/// into a file (through `sql`); gives that file's path.
pub fn element_json(ctx: &mut Context, p: &str) -> (r: String)
    ensures
        r@ == emit_path(old(ctx)@.dir, elements_query(p@), Some(seq!['t', 's', 'v'])),
        final(ctx)@ == (ContextView {
            statements: old(ctx)@.statements.push(copy_statement(elements_query(p@), r@)),
            ..old(ctx)@
        }),
{
    let mut q = String::new();
    q.append("\n    SELECT DISTINCT\n        'nodes' AS \"group\",\n        to_json({\n            id: 'actor_' || attr_actor\n        }) AS data,\n        to_json([ 'actor' ]) AS classes\n    FROM read_parquet('");
    q.append(p);
    q.append("')\n    WHERE\n        name == 'pop' OR name == 'push'\n\n    UNION\n\n    SELECT DISTINCT\n        'nodes' AS \"group\",\n        to_json({\n            id: 'queue_' || attr_queue_name\n        }) AS data,\n        to_json([ 'queue' ]) AS classes\n    FROM read_parquet('");
    q.append(p);
    q.append("')\n    WHERE\n        name == 'pop' OR name == 'push'\n\n    UNION\n\n    SELECT DISTINCT\n        'edges' AS \"group\",\n        to_json({\n            source: 'queue_' || attr_queue_name,\n            target: 'actor_' || attr_actor\n        }) AS data,\n        to_json([ name ]) AS classes\n    FROM read_parquet('");
    q.append(p);
    q.append("')\n    WHERE\n        name == 'push'\n    \n    UNION\n\n    SELECT DISTINCT\n        'edges' AS \"group\",\n        to_json({\n            source: 'actor_' || attr_actor,\n            target: 'queue_' || attr_queue_name\n        }) AS data,\n        to_json([ name ]) AS classes\n    FROM read_parquet('");
    q.append(p);
    q.append("')\n    WHERE\n        name == 'pop'\n    ");
    sql(ctx, q.as_str())
}

/// The element that shows the graph whose elements are in the file named `name`.
pub open spec fn graph_div(name: Seq<char>) -> Seq<char> {
    "<div data-cytoscape data-elements=\""@ + name + "\"></div>"@
}

/// Asks for the graph elements of the metrics in the file `p` and adds a
/// graph of them to the page, between blank lines.
pub fn render(ctx: &mut Context, p: &str)
    ensures
        ({
            let q = elements_query(p@);
            let path = emit_path(old(ctx)@.dir, q, Some(seq!['t', 's', 'v']));
            final(ctx)@ == (ContextView {
                statements: old(ctx)@.statements.push(copy_statement(q, path)),
                out: old(ctx)@.out + seq!['\n'] + graph_div(file_name(path)) + seq!['\n', '\n'],
                ..old(ctx)@
            })
        }),
{
    proof {
        reveal_strlit("");
    }
    let elements = element_json(ctx, p);
    md(ctx, "");
    let mut div = String::new();
    div.append("<div data-cytoscape data-elements=\"");
    div.append(path_file_name(elements.as_str()));
    div.append("\"></div>");
    md(ctx, div.as_str());
    md(ctx, "");
    assert(ctx@.out =~= old(ctx)@.out + seq!['\n'] + graph_div(file_name(elements@)) + seq!['\n', '\n']);
}

} // verus!
