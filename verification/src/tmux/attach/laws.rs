//! What installing and clearing key bindings does to a tmux server.
//!
//! The server is modelled by its root key table: the line of tmux source that
//! binds each key. What matters of tmux here is what its documentation says of
//! `bind-key`, `unbind-key` and `source-file`.

use crate::key::{KeyCode, KeyEvent, KeyModifiers};
use crate::keybindings;
use crate::text;
use crate::text_map;
use crate::tmux::attach;
use crate::tmux::command;
use vstd::prelude::*;

verus! {

/// A key table: for each key that is bound, the line that binds it, with its
/// newline.
pub type KeyTable = Map<Seq<char>, Seq<char>>;

/// Whether each line of a table is about its key.
pub open spec fn consistent(table: KeyTable) -> bool {
    forall|key: Seq<char>| #[trigger]
        table.contains_key(key) ==> {
            &&& table[key].len() > 0
            &&& table[key].last() == '\n'
            &&& attach::listed_key(table[key].drop_last()) == Some(key)
        }
}

/// The line that binds `key`, or nothing where it is not bound.
pub open spec fn line_of(table: KeyTable, key: Seq<char>) -> Seq<char> {
    if table.contains_key(key) {
        table[key]
    } else {
        Seq::empty()
    }
}

/// Whether two tables bind `key` alike.
pub open spec fn alike(a: KeyTable, b: KeyTable, key: Seq<char>) -> bool {
    a.contains_key(key) == b.contains_key(key) && (a.contains_key(key) ==> a[key] == b[key])
}

/// Whether `listing` lists `table`.
pub open spec fn lists(listing: Seq<char>, table: KeyTable) -> bool {
    forall|key: Seq<char>| #[trigger]
        attach::original_in(text::lines(listing), key) == line_of(table, key)
}

/// The root key that a request unbinds.
pub open spec fn unbound_by(request: command::RequestView) -> Option<Seq<char>> {
    if request.args.len() == 4 && request.args[0] == "unbind-key"@ && request.args[1] == "-T"@
        && request.args[2] == "root"@ {
        Some(request.args[3])
    } else {
        None
    }
}

/// The root key that a request binds.
pub open spec fn bound_by(request: command::RequestView) -> Option<Seq<char>> {
    if request.args.len() > 4 && request.args[0] == "bind-key"@ && request.args[1] == "-T"@
        && request.args[2] == "root"@ {
        Some(request.args[3])
    } else {
        None
    }
}

/// The root key that a request binds by the line on its input.
pub open spec fn sourced_by(request: command::RequestView) -> Option<Seq<char>> {
    if request.args == seq!["source-file"@, "-"@] {
        match request.input {
            Some(line) => if line.len() > 0 && line.last() == '\n' {
                attach::listed_key(line.drop_last())
            } else {
                None
            },
            None => None,
        }
    } else {
        None
    }
}

/// The root table after a request. `shown` tells how the server lists a binding
/// that was made by a `bind-key` command; nothing is supposed of it.
pub open spec fn performed(
    table: KeyTable,
    request: command::RequestView,
    shown: spec_fn(Seq<Seq<char>>) -> Seq<char>,
) -> KeyTable {
    match (unbound_by(request), bound_by(request), sourced_by(request)) {
        (Some(key), _, _) => table.remove(key),
        (None, Some(key), _) => table.insert(key, shown(request.args)),
        (None, None, Some(key)) => table.insert(key, request.input->Some_0),
        (None, None, None) => table,
    }
}

/// The root table of the server on a socket after a request, which changes
/// nothing there if it is for another server.
pub open spec fn performed_on(
    server: Option<Seq<char>>,
    table: KeyTable,
    request: command::RequestView,
    shown: spec_fn(Seq<Seq<char>>) -> Seq<char>,
) -> KeyTable {
    if request.socket == server {
        performed(table, request, shown)
    } else {
        table
    }
}

/// The root table of the server on a socket after those of `requests` that
/// `done` tells the places of.
pub open spec fn performed_some(
    server: Option<Seq<char>>,
    table: KeyTable,
    requests: Seq<command::RequestView>,
    done: Set<int>,
    shown: spec_fn(Seq<Seq<char>>) -> Seq<char>,
) -> KeyTable
    decreases requests.len(),
{
    if requests.len() == 0 {
        table
    } else {
        let before = performed_some(server, table, requests.drop_last(), done, shown);
        if done.contains(requests.len() - 1) {
            performed_on(server, before, requests.last(), shown)
        } else {
            before
        }
    }
}

/// Whether all of `requests` are done.
pub open spec fn all_done(requests: Seq<command::RequestView>, done: Set<int>) -> bool {
    forall|i: int| 0 <= i < requests.len() ==> #[trigger] done.contains(i)
}

/// Whether a request does not change how `key` is bound.
pub open spec fn leaves(request: command::RequestView, key: Seq<char>) -> bool {
    unbound_by(request) != Some(key) && bound_by(request) != Some(key) && sourced_by(request)
        != Some(key)
}

proof fn lemma_untouched(
    server: Option<Seq<char>>,
    table: KeyTable,
    requests: Seq<command::RequestView>,
    done: Set<int>,
    shown: spec_fn(Seq<Seq<char>>) -> Seq<char>,
    key: Seq<char>,
)
    requires
        forall|i: int| 0 <= i < requests.len() ==> leaves(#[trigger] requests[i], key),
    ensures
        alike(performed_some(server, table, requests, done, shown), table, key),
    decreases requests.len(),
{
    if requests.len() > 0 {
        assert forall|i: int| 0 <= i < requests.drop_last().len() implies leaves(
            #[trigger] requests.drop_last()[i],
            key,
        ) by {
            assert(requests.drop_last()[i] == requests[i]);
        }
        lemma_untouched(server, table, requests.drop_last(), done, shown, key);
        assert(leaves(requests.last(), key));
    }
}

proof fn lemma_in_turn(
    server: Option<Seq<char>>,
    table: KeyTable,
    first: Seq<command::RequestView>,
    second: Seq<command::RequestView>,
    done: Set<int>,
    shown: spec_fn(Seq<Seq<char>>) -> Seq<char>,
)
    requires
        all_done(first + second, done),
    ensures
        performed_some(server, table, first + second, done, shown) == performed_some(
            server,
            performed_some(server, table, first, done, shown),
            second,
            Set::full(),
            shown,
        ),
    decreases second.len(),
{
    if second.len() == 0 {
        assert(first + second =~= first);
    } else {
        let all = first + second;
        assert(all.drop_last() =~= first + second.drop_last());
        assert(all_done(first + second.drop_last(), done));
        lemma_in_turn(server, table, first, second.drop_last(), done, shown);
        assert(done.contains(all.len() - 1));
        assert(all.last() == second.last());
    }
}

/// What the requests of an installation do to the root keys.
proof fn lemma_root_keys(
    socket: Option<Seq<char>>,
    key: Seq<char>,
    line: Seq<char>,
    command: Seq<Seq<char>>,
)
    ensures
        ({
            let unbind = attach::unbind_root(socket, key);
            unbound_by(unbind) == Some(key) && bound_by(unbind) is None && sourced_by(unbind)
                is None
        }),
        ({
            let source = attach::source_text(socket, line);
            unbound_by(source) is None && bound_by(source) is None && (line.len() > 0
                && line.last() == '\n' ==> sourced_by(source) == attach::listed_key(
                line.drop_last(),
            ))
        }),
        ({
            let bind = attach::bind_root(socket, key, command);
            unbound_by(bind) is None && (bound_by(bind) is Some ==> bound_by(bind) == Some(key))
                && sourced_by(bind) is None
        }),
{
    reveal_strlit("unbind-key");
    reveal_strlit("bind-key");
    reveal_strlit("source-file");
    let unbind = attach::unbind_root(socket, key);
    let source = attach::source_text(socket, line);
    let bind = attach::bind_root(socket, key, command);
    assert("unbind-key"@.len() == 10 && "bind-key"@.len() == 8 && "source-file"@.len() == 11);
    assert(unbind.args.len() == 4 && unbind.args[0] == "unbind-key"@);
    assert(source.args.len() == 2 && source.args[0] == "source-file"@);
    assert(bind.args[0] == "bind-key"@ && bind.args[3] == key);
    assert(seq!["source-file"@, "-"@].len() == 2);
}

/// A request that is about no root key.
pub open spec fn about_no_root_key(request: command::RequestView) -> bool {
    unbound_by(request) is None && bound_by(request) is None && sourced_by(request) is None
}

proof fn lemma_other_requests(
    socket: Option<Seq<char>>,
    hint: Seq<char>,
    saved: Map<Seq<char>, Seq<char>>,
)
    ensures
        about_no_root_key(attach::read_saved(socket)),
        about_no_root_key(
            command::run_request(socket, seq!["list-keys"@, "-T"@, "root"@]),
        ),
        about_no_root_key(attach::persist(socket, saved)),
        about_no_root_key(attach::bind_quote_table(socket)),
        about_no_root_key(
            command::run_request(socket, seq!["set-option"@, "-g"@, attach::HINT_OPTION@, hint]),
        ),
        about_no_root_key(
            command::run_request(
                socket,
                seq!["unbind-key"@, "-a"@, "-T"@, attach::QUOTE_TABLE@],
            ),
        ),
        about_no_root_key(
            command::run_request(socket, seq!["set-option"@, "-gu"@, attach::RESTORE_OPTION@]),
        ),
        about_no_root_key(
            command::run_request(socket, seq!["set-option"@, "-gu"@, attach::HINT_OPTION@]),
        ),
{
    reveal_strlit("unbind-key");
    reveal_strlit("bind-key");
    reveal_strlit("source-file");
    reveal_strlit("set-option");
    reveal_strlit("show-options");
    reveal_strlit("list-keys");
    reveal_strlit("root");
    reveal_strlit("-a");
    reveal_strlit("-T");
    reveal_strlit("bosun-send-next");
    assert("unbind-key"@[0] == 'u' && "set-option"@[0] == 's');
    assert("-a"@[1] == 'a' && "-T"@[1] == 'T');
    assert("root"@.len() == 4 && attach::QUOTE_TABLE@.len() == 15);
    assert(seq!["source-file"@, "-"@].len() == 2);
}

/// Whether `table` can be led back to `first` by what is saved: of the saved
/// keys what is saved is how `first` binds them, and the others are as in
/// `first`.
pub open spec fn recoverable(
    first: KeyTable,
    table: KeyTable,
    saved: Map<Seq<char>, Seq<char>>,
) -> bool {
    &&& forall|key: Seq<char>| #[trigger]
        saved.contains_key(key) ==> saved[key] == line_of(first, key)
    &&& forall|key: Seq<char>| #[trigger]
        saved.contains_key(key) || alike(table, first, key)
}

/// Whether saved entries are how `first` binds their keys.
pub open spec fn true_to(first: KeyTable, saved: Seq<(Seq<char>, Seq<char>)>) -> bool {
    forall|i: int|
        0 <= i < saved.len() ==> (#[trigger] saved[i]).1 == line_of(first, saved[i].0)
}

proof fn lemma_restores_touch(
    first: KeyTable,
    socket: Option<Seq<char>>,
    saved: Seq<(Seq<char>, Seq<char>)>,
    kept: Set<Seq<char>>,
    key: Seq<char>,
)
    requires
        consistent(first),
        true_to(first, saved),
        !text_map::has_key(saved, key) || kept.contains(key),
    ensures
        ({
            let requests = attach::restores(socket, saved, kept);
            forall|i: int| 0 <= i < requests.len() ==> leaves(#[trigger] requests[i], key)
        }),
    decreases saved.len(),
{
    if saved.len() > 0 {
        let init = saved.drop_last();
        assert(forall|i: int| 0 <= i < init.len() ==> init[i] == saved[i]);
        assert(true_to(first, init));
        if text_map::has_key(init, key) {
            let i = text_map::place_of(init, key);
            assert(saved[i].0 == key);
        }
        lemma_restores_touch(first, socket, init, kept, key);
        let (last, line) = saved.last();
        assert(saved[saved.len() - 1].1 == line_of(first, last));
        if !kept.contains(last) {
            assert(last != key);
            lemma_root_keys(socket, last, line, Seq::empty());
            let requests = attach::restores(socket, saved, kept);
            let before = attach::restores(socket, init, kept);
            assert forall|i: int| 0 <= i < requests.len() implies leaves(
                #[trigger] requests[i],
                key,
            ) by {
                if i < before.len() {
                    assert(requests[i] == before[i]);
                } else {
                    assert(requests[i] == attach::restore(socket, last, line)[i - before.len()]);
                }
            }
        }
    }
}

proof fn lemma_restored(
    first: KeyTable,
    table: KeyTable,
    socket: Option<Seq<char>>,
    key: Seq<char>,
    shown: spec_fn(Seq<Seq<char>>) -> Seq<char>,
)
    requires
        consistent(first),
    ensures
        ({
            let requests = attach::restore(socket, key, line_of(first, key));
            let after = performed_some(socket, table, requests, Set::full(), shown);
            alike(after, first, key) && forall|other: Seq<char>|
                other != key ==> #[trigger] alike(after, table, other)
        }),
{
    let line = line_of(first, key);
    let requests = attach::restore(socket, key, line);
    lemma_root_keys(socket, key, line, Seq::empty());
    let one = seq![attach::unbind_root(socket, key)];
    assert(one.drop_last() =~= Seq::<command::RequestView>::empty());
    assert(performed_some(socket, table, one.drop_last(), Set::full(), shown) == table);
    assert(performed_some(socket, table, one, Set::full(), shown) == table.remove(key));
    if line.len() > 0 {
        assert(requests.drop_last() =~= one);
        assert(performed_some(socket, table, requests, Set::full(), shown) == table.remove(
            key,
        ).insert(key, line));
    } else {
        assert(requests =~= one);
    }
}

proof fn lemma_restores_done(
    first: KeyTable,
    table: KeyTable,
    socket: Option<Seq<char>>,
    saved: Seq<(Seq<char>, Seq<char>)>,
    kept: Set<Seq<char>>,
    done: Set<int>,
    shown: spec_fn(Seq<Seq<char>>) -> Seq<char>,
    key: Seq<char>,
)
    requires
        consistent(first),
        true_to(first, saved),
        all_done(attach::restores(socket, saved, kept), done),
        text_map::has_key(saved, key),
        !kept.contains(key),
    ensures
        alike(
            performed_some(socket, table, attach::restores(socket, saved, kept), done, shown),
            first,
            key,
        ),
    decreases saved.len(),
{
    let init = saved.drop_last();
    assert(forall|i: int| 0 <= i < init.len() ==> init[i] == saved[i]);
    let (last, line) = saved.last();
    assert(saved[saved.len() - 1].1 == line_of(first, last));
    let before = attach::restores(socket, init, kept);
    if !kept.contains(last) {
        let more = attach::restore(socket, last, line);
        lemma_in_turn(socket, table, before, more, done, shown);
        assert(all_done(before, done));
        let middle = performed_some(socket, table, before, done, shown);
        lemma_restored(first, middle, socket, last, shown);
    }
    if kept.contains(last) || key != last {
        let i = text_map::place_of(saved, key);
        assert(init[i].0 == key);
        assert(text_map::has_key(init, key));
        lemma_restores_done(first, table, socket, init, kept, done, shown, key);
        if !kept.contains(last) {
            let middle = performed_some(socket, table, before, done, shown);
            let more = attach::restore(socket, last, line);
            assert(alike(performed_some(socket, middle, more, Set::full(), shown), middle, key));
        }
    }
}

proof fn lemma_true_to(first: KeyTable, table: KeyTable, saved: Map<Seq<char>, Seq<char>>)
    requires
        recoverable(first, table, saved),
        text_map::orderable(saved),
    ensures
        true_to(first, text_map::in_order(saved)),
{
    let entries = text_map::in_order(saved);
    assert forall|i: int| 0 <= i < entries.len() implies (#[trigger] entries[i]).1 == line_of(
        first,
        entries[i].0,
    ) by {
        text_map::lemma_map_of(entries, i);
        assert(saved.contains_key(entries[i].0));
    }
}

proof fn lemma_tidied(
    first: KeyTable,
    table: KeyTable,
    install: attach::InstallView,
    saved: Map<Seq<char>, Seq<char>>,
    done: Set<int>,
    shown: spec_fn(Seq<Seq<char>>) -> Seq<char>,
    key: Seq<char>,
)
    requires
        consistent(first),
        text_map::orderable(saved),
        recoverable(first, table, saved),
        install.stage == attach::StageView::ListRoot(saved),
    ensures
        ({
            let requests = attach::due(install);
            let plan = install.plan;
            let after = performed_some(install.socket, table, requests, done, shown);
            &&& !saved.contains_key(key) || plan.contains_key(key) ==> alike(after, table, key)
            &&& saved.contains_key(key) && !plan.contains_key(key) && all_done(requests, done)
                ==> alike(after, first, key)
        }),
{
    let entries = text_map::in_order(saved);
    let plan = install.plan;
    let socket = install.socket;
    let requests = attach::due(install);
    let some = attach::restores(socket, entries, plan.dom());
    lemma_true_to(first, table, saved);
    text_map::lemma_entry_keys(saved, key);
    lemma_other_requests(socket, Seq::empty(), saved);
    assert(requests.drop_last() =~= some);
    if !saved.contains_key(key) || plan.contains_key(key) {
        lemma_restores_touch(first, socket, entries, plan.dom(), key);
        lemma_untouched(install.socket, table, some, done, shown, key);
    } else if all_done(requests, done) {
        assert(all_done(some, done));
        lemma_restores_done(first, table, socket, entries, plan.dom(), done, shown, key);
    }
}

proof fn lemma_bound(
    table: KeyTable,
    install: attach::InstallView,
    done: Set<int>,
    shown: spec_fn(Seq<Seq<char>>) -> Seq<char>,
    key: Seq<char>,
)
    requires
        text_map::orderable(install.plan),
        install.stage == attach::StageView::Bind,
        !install.plan.contains_key(key),
    ensures
        alike(performed_some(install.socket, table, attach::due(install), done, shown), table, key),
{
    let requests = attach::due(install);
    let entries = text_map::in_order(install.plan);
    text_map::lemma_entry_keys(install.plan, key);
    lemma_other_requests(install.socket, install.hint, Map::empty());
    assert forall|i: int| 0 <= i < requests.len() implies leaves(#[trigger] requests[i], key) by {
        if 0 < i < requests.len() - 1 {
            let entry = entries[i - 1];
            assert(requests[i] == attach::bind_root(install.socket, entry.0, entry.1));
            lemma_root_keys(install.socket, entry.0, Seq::empty(), entry.1);
            assert(entry.0 != key);
        }
    }
    lemma_untouched(install.socket, table, requests, done, shown, key);
}

/// The plan has entries in order.
pub proof fn lemma_plan_orderable(
    bindings: Seq<(keybindings::Action, keybindings::ShortcutView)>,
    socket: Option<Seq<char>>,
)
    ensures
        text_map::orderable(attach::planned(bindings, socket)),
    decreases bindings.len(),
{
    if bindings.len() == 0 {
        text_map::lemma_empty_orderable::<Seq<Seq<char>>>();
        let none = Map::<Seq<char>, Seq<Seq<char>>>::empty();
        text_map::lemma_insert_orderable(none, "S-Left"@, seq!["send-keys"@]);
        text_map::lemma_insert_orderable(
            none.insert("S-Left"@, seq!["send-keys"@]),
            "S-Right"@,
            seq!["send-keys"@],
        );
    } else {
        lemma_plan_orderable(bindings.drop_last(), socket);
        text_map::lemma_insert_orderable(
            attach::planned(bindings.drop_last(), socket),
            bindings.last().1.tmux,
            attach::action_command(bindings.last().0, socket),
        );
    }
}

proof fn lemma_remembered_orderable(
    plan: Map<Seq<char>, Seq<Seq<char>>>,
    saved: Map<Seq<char>, Seq<char>>,
    listing: Seq<char>,
)
    requires
        text_map::orderable(plan),
    ensures
        text_map::orderable(attach::remembered(plan, saved, listing)),
{
    let entries = text_map::in_order(plan);
    let value = |key: Seq<char>| attach::remembered_value(saved, listing, key);
    let others = entries.map_values(|e: (Seq<char>, Seq<Seq<char>>)| (e.0, value(e.0)));
    text_map::lemma_same_keys(entries, others, value);
    text_map::lemma_in_order(others);
    assert(text_map::map_of(others) =~= attach::remembered(plan, saved, listing));
}

/// A server: its root keys, and the bindings that are saved on it.
pub struct Server {
    pub root: KeyTable,
    pub saved: Map<Seq<char>, Seq<char>>,
}

/// One installation, with all that can happen to it. It may be cut short, and
/// any of its requests may fail.
pub struct Attempt {
    pub bindings: Seq<(keybindings::Action, keybindings::ShortcutView)>,
    /// The reply with the saved bindings.
    pub saved: command::Reply,
    /// The places of the requests that were carried out before the root keys
    /// were listed.
    pub tidied: Set<int>,
    /// The reply with the root keys.
    pub listing: command::Reply,
    /// Whether the bindings were saved.
    pub stored: bool,
    /// The reply about that.
    pub persisted: command::Reply,
    /// The places of the requests that were carried out after that.
    pub bound: Set<int>,
}

/// The installation of an attempt once it knows what is saved.
pub open spec fn tidying(socket: Option<Seq<char>>, attempt: Attempt) -> attach::InstallView {
    attach::advanced(attach::install_start(socket, attempt.bindings), attempt.saved)
}

/// The installation of an attempt once it knows the root keys.
pub open spec fn persisting(socket: Option<Seq<char>>, attempt: Attempt) -> attach::InstallView {
    attach::advanced(tidying(socket, attempt), attempt.listing)
}

/// The installation of an attempt once it knows whether the bindings are saved.
pub open spec fn binding(socket: Option<Seq<char>>, attempt: Attempt) -> attach::InstallView {
    attach::advanced(persisting(socket, attempt), attempt.persisted)
}

/// The root keys when an attempt lists them.
pub open spec fn root_listed(
    server: Server,
    socket: Option<Seq<char>>,
    attempt: Attempt,
    shown: spec_fn(Seq<Seq<char>>) -> Seq<char>,
) -> KeyTable {
    performed_some(
        socket,
        server.root,
        attach::due(tidying(socket, attempt)),
        attempt.tidied,
        shown,
    )
}

/// The server after an attempt.
pub open spec fn attempted(
    server: Server,
    socket: Option<Seq<char>>,
    attempt: Attempt,
    shown: spec_fn(Seq<Seq<char>>) -> Seq<char>,
) -> Server {
    Server {
        root: performed_some(
            socket,
            root_listed(server, socket, attempt, shown),
            attach::due(binding(socket, attempt)),
            attempt.bound,
            shown,
        ),
        saved: match persisting(socket, attempt).stage {
            attach::StageView::Persist(saved) if attempt.stored => saved,
            _ => server.saved,
        },
    }
}

/// Whether the replies of an attempt are those of the server, and nothing was
/// saved over a restoration that had failed: what is saved was read, bindings
/// are reported as saved only if they are, and when they are, the keys that are
/// no longer planned had been restored and the root keys had been listed.
pub open spec fn credible(
    server: Server,
    socket: Option<Seq<char>>,
    attempt: Attempt,
    shown: spec_fn(Seq<Seq<char>>) -> Seq<char>,
) -> bool {
    &&& attach::saved_in(attempt.saved) == server.saved
    &&& attempt.persisted.ok() ==> attempt.stored
    &&& attempt.stored ==> all_done(attach::due(tidying(socket, attempt)), attempt.tidied)
    &&& attempt.stored ==> lists(
        attempt.listing.printed(),
        root_listed(server, socket, attempt, shown),
    )
}

proof fn lemma_attempt(
    first: KeyTable,
    server: Server,
    socket: Option<Seq<char>>,
    attempt: Attempt,
    shown: spec_fn(Seq<Seq<char>>) -> Seq<char>,
)
    requires
        consistent(first),
        recoverable(first, server.root, server.saved),
        text_map::orderable(server.saved),
        credible(server, socket, attempt, shown),
    ensures
        ({
            let after = attempted(server, socket, attempt, shown);
            recoverable(first, after.root, after.saved) && text_map::orderable(after.saved)
        }),
{
    let after = attempted(server, socket, attempt, shown);
    let install = tidying(socket, attempt);
    let plan = install.plan;
    let listed = root_listed(server, socket, attempt, shown);
    let listing = attempt.listing.printed();
    let saved = attach::remembered(plan, server.saved, listing);
    lemma_plan_orderable(attempt.bindings, socket);
    lemma_remembered_orderable(plan, server.saved, listing);
    assert(persisting(socket, attempt).stage == attach::StageView::Persist(saved));
    assert forall|key: Seq<char>| #[trigger] after.saved.contains_key(key) implies after.saved[key]
        == line_of(first, key) by {
        if attempt.stored && !server.saved.contains_key(key) {
            lemma_tidied(first, server.root, install, server.saved, attempt.tidied, shown, key);
            assert(attach::original_in(text::lines(listing), key) == line_of(listed, key));
            assert(server.saved.contains_key(key) || alike(server.root, first, key));
        }
    }
    assert forall|key: Seq<char>| #[trigger]
        after.saved.contains_key(key) || alike(after.root, first, key) by {
        if !after.saved.contains_key(key) {
            lemma_tidied(first, server.root, install, server.saved, attempt.tidied, shown, key);
            assert(server.saved.contains_key(key) || alike(server.root, first, key));
            assert(alike(listed, first, key));
            if attempt.persisted.ok() {
                lemma_bound(listed, binding(socket, attempt), attempt.bound, shown, key);
            }
        }
    }
}

/// The server after a number of attempts.
pub open spec fn after_attempts(
    server: Server,
    socket: Option<Seq<char>>,
    attempts: Seq<Attempt>,
    shown: spec_fn(Seq<Seq<char>>) -> Seq<char>,
) -> Server
    decreases attempts.len(),
{
    if attempts.len() == 0 {
        server
    } else {
        attempted(
            after_attempts(server, socket, attempts.drop_last(), shown),
            socket,
            attempts.last(),
            shown,
        )
    }
}

/// Whether each attempt is credible when its turn comes.
pub open spec fn all_credible(
    server: Server,
    socket: Option<Seq<char>>,
    attempts: Seq<Attempt>,
    shown: spec_fn(Seq<Seq<char>>) -> Seq<char>,
) -> bool
    decreases attempts.len(),
{
    attempts.len() == 0 || {
        &&& all_credible(server, socket, attempts.drop_last(), shown)
        &&& credible(
            after_attempts(server, socket, attempts.drop_last(), shown),
            socket,
            attempts.last(),
            shown,
        )
    }
}

proof fn lemma_attempts(
    first: KeyTable,
    socket: Option<Seq<char>>,
    attempts: Seq<Attempt>,
    shown: spec_fn(Seq<Seq<char>>) -> Seq<char>,
)
    requires
        consistent(first),
        all_credible((Server { root: first, saved: Map::empty() }), socket, attempts, shown),
    ensures
        ({
            let after = after_attempts(
                Server { root: first, saved: Map::empty() },
                socket,
                attempts,
                shown,
            );
            recoverable(first, after.root, after.saved) && text_map::orderable(after.saved)
        }),
    decreases attempts.len(),
{
    let server = Server { root: first, saved: Map::empty() };
    if attempts.len() == 0 {
        text_map::lemma_empty_orderable::<Seq<char>>();
        assert forall|key: Seq<char>| #[trigger]
            server.saved.contains_key(key) || alike(server.root, first, key) by {}
    } else {
        lemma_attempts(first, socket, attempts.drop_last(), shown);
        lemma_attempt(
            first,
            after_attempts(server, socket, attempts.drop_last(), shown),
            socket,
            attempts.last(),
            shown,
        );
    }
}

/// Clearing gives back the root keys as they were before the first
/// installation, however many installations there were, with whatever
/// shortcuts, and wherever each of them was cut short.
pub proof fn law_clearing_restores(
    first: KeyTable,
    socket: Option<Seq<char>>,
    attempts: Seq<Attempt>,
    shown: spec_fn(Seq<Seq<char>>) -> Seq<char>,
    done: Set<int>,
)
    requires
        consistent(first),
        all_credible((Server { root: first, saved: Map::empty() }), socket, attempts, shown),
        ({
            let after = after_attempts(
                Server { root: first, saved: Map::empty() },
                socket,
                attempts,
                shown,
            );
            all_done(attach::clear_requests(socket, after.saved), done)
        }),
    ensures
        ({
            let after = after_attempts(
                Server { root: first, saved: Map::empty() },
                socket,
                attempts,
                shown,
            );
            performed_some(
                socket,
                after.root,
                attach::clear_requests(socket, after.saved),
                done,
                shown,
            ) == first
        }),
{
    let after = after_attempts(
        Server { root: first, saved: Map::empty() },
        socket,
        attempts,
        shown,
    );
    lemma_attempts(first, socket, attempts, shown);
    lemma_cleared(first, after.root, socket, after.saved, done, shown);
}

proof fn lemma_cleared(
    first: KeyTable,
    table: KeyTable,
    socket: Option<Seq<char>>,
    saved: Map<Seq<char>, Seq<char>>,
    done: Set<int>,
    shown: spec_fn(Seq<Seq<char>>) -> Seq<char>,
)
    requires
        consistent(first),
        recoverable(first, table, saved),
        text_map::orderable(saved),
        all_done(attach::clear_requests(socket, saved), done),
    ensures
        performed_some(socket, table, attach::clear_requests(socket, saved), done, shown) == first,
{
    let entries = text_map::in_order(saved);
    let some = attach::restores(socket, entries, Set::empty());
    let requests = attach::clear_requests(socket, saved);
    let rest = requests.skip(some.len() as int);
    assert(requests =~= some + rest);
    lemma_true_to(first, table, saved);
    lemma_other_requests(socket, Seq::empty(), saved);
    lemma_in_turn(socket, table, some, rest, done, shown);
    let middle = performed_some(socket, table, some, done, shown);
    let end = performed_some(socket, table, requests, done, shown);
    assert(all_done(some, done));
    assert forall|key: Seq<char>| #[trigger] alike(end, first, key) by {
        text_map::lemma_entry_keys(saved, key);
        if saved.contains_key(key) {
            lemma_restores_done(first, table, socket, entries, Set::empty(), done, shown, key);
        } else {
            lemma_restores_touch(first, socket, entries, Set::empty(), key);
            lemma_untouched(socket, table, some, done, shown, key);
            assert(saved.contains_key(key) || alike(table, first, key));
        }
        assert(rest.len() == 3);
        assert forall|i: int| 0 <= i < rest.len() implies leaves(#[trigger] rest[i], key) by {
            assert(rest[i] == requests[some.len() + i]);
        }
        lemma_untouched(socket, middle, rest, Set::full(), shown, key);
    }
    assert forall|key: Seq<char>| end.contains_key(key) == first.contains_key(key) by {
        assert(alike(end, first, key));
    }
    assert forall|key: Seq<char>| end.contains_key(key) implies end[key] == first[key] by {
        assert(alike(end, first, key));
    }
    assert(end =~= first);
}

/// The cleanup in a hurry gives back the root keys as clearing does, but for
/// C-q, which is left unbound.
pub proof fn law_emergency_restores(
    first: KeyTable,
    socket: Option<Seq<char>>,
    attempts: Seq<Attempt>,
    shown: spec_fn(Seq<Seq<char>>) -> Seq<char>,
    done: Set<int>,
)
    requires
        consistent(first),
        all_credible((Server { root: first, saved: Map::empty() }), socket, attempts, shown),
        ({
            let after = after_attempts(
                Server { root: first, saved: Map::empty() },
                socket,
                attempts,
                shown,
            );
            all_done(attach::emergency_requests(socket, after.saved), done)
        }),
    ensures
        ({
            let after = after_attempts(
                Server { root: first, saved: Map::empty() },
                socket,
                attempts,
                shown,
            );
            performed_some(
                socket,
                after.root,
                attach::emergency_requests(socket, after.saved),
                done,
                shown,
            ) == first.remove("C-q"@)
        }),
{
    let after = after_attempts(
        Server { root: first, saved: Map::empty() },
        socket,
        attempts,
        shown,
    );
    let clear = attach::clear_requests(socket, after.saved);
    let quick = attach::unbind_quick_jump(socket);
    let all = attach::emergency_requests(socket, after.saved);
    assert(all_done(clear, done)) by {
        assert(all.len() == clear.len() + 2);
    }
    law_clearing_restores(first, socket, attempts, shown, done);
    lemma_root_keys(socket, "C-q"@, Seq::empty(), Seq::empty());
    assert(attach::unbind_ctrl_q(socket) == attach::unbind_root(socket, "C-q"@));
    assert(about_no_root_key(quick)) by {
        reveal_strlit("root");
        reveal_strlit("prefix");
        reveal_strlit("unbind-key");
        reveal_strlit("bind-key");
        assert("root"@.len() == 4 && "prefix"@.len() == 6);
        assert(quick.args[2] == "prefix"@ && quick.args.len() == 4);
        assert(seq!["source-file"@, "-"@].len() == 2);
    }
    let most = all.drop_last();
    assert(most.drop_last() =~= clear);
    assert(done.contains(all.len() - 1) && done.contains(most.len() - 1));
    assert(performed_some(socket, after.root, most, done, shown) == first.remove("C-q"@));
}

/// The planned keys are S-Left, S-Right and the shortcuts' keys.
pub proof fn law_planned_keys(
    bindings: Seq<(keybindings::Action, keybindings::ShortcutView)>,
    socket: Option<Seq<char>>,
    key: Seq<char>,
)
    ensures
        attach::planned(bindings, socket).contains_key(key) <==> key == "S-Left"@ || key
            == "S-Right"@ || exists|i: int|
            0 <= i < bindings.len() && (#[trigger] bindings[i]).1.tmux == key,
    decreases bindings.len(),
{
    if bindings.len() > 0 {
        let init = bindings.drop_last();
        law_planned_keys(init, socket, key);
        if exists|i: int| 0 <= i < init.len() && (#[trigger] init[i]).1.tmux == key {
            let i = choose|i: int| 0 <= i < init.len() && (#[trigger] init[i]).1.tmux == key;
            assert(bindings[i].1.tmux == key);
        }
        if exists|i: int| 0 <= i < bindings.len() && (#[trigger] bindings[i]).1.tmux == key {
            let i = choose|i: int|
                0 <= i < bindings.len() && (#[trigger] bindings[i]).1.tmux == key;
            if i < init.len() {
                assert(init[i].1.tmux == key);
            } else {
                assert(bindings.last().1.tmux == key);
            }
        }
        if bindings.last().1.tmux == key {
            assert(bindings[bindings.len() - 1].1.tmux == key);
        }
    }
}

/// Whether no two shortcuts have the same tmux key.
pub open spec fn separate(
    bindings: Seq<(keybindings::Action, keybindings::ShortcutView)>,
) -> bool {
    forall|i: int, j: int|
        0 <= i < j < bindings.len() ==> (#[trigger] bindings[i]).1.tmux != (
        #[trigger] bindings[j]).1.tmux
}

proof fn lemma_separate_keys(
    bindings: Seq<(keybindings::Action, keybindings::ShortcutView)>,
    socket: Option<Seq<char>>,
    i: int,
)
    requires
        separate(bindings),
        0 <= i < bindings.len(),
    ensures
        attach::planned(bindings, socket)[bindings[i].1.tmux] == attach::action_command(
            bindings[i].0,
            socket,
        ),
    decreases bindings.len(),
{
    let init = bindings.drop_last();
    if i < init.len() {
        assert(init[i] == bindings[i]);
        assert(forall|j: int| 0 <= j < init.len() ==> init[j] == bindings[j]);
        lemma_separate_keys(init, socket, i);
        assert(bindings[i].1.tmux != bindings[bindings.len() - 1].1.tmux);
    }
}

/// The shortcuts of a configuration have different tmux keys, and the key of
/// each is bound to its action.
pub proof fn law_shortcuts_run_their_actions(
    entries: Seq<(keybindings::Action, Seq<char>)>,
    socket: Option<Seq<char>>,
    i: int,
)
    requires
        keybindings::resolved(entries) is Ok,
        0 <= i < keybindings::resolved(entries)->Ok_0.len(),
    ensures
        ({
            let bindings = keybindings::resolved(entries)->Ok_0;
            &&& separate(bindings)
            &&& attach::planned(bindings, socket)[bindings[i].1.tmux] == attach::action_command(
                bindings[i].0,
                socket,
            )
        }),
{
    let bindings = keybindings::resolved(entries)->Ok_0;
    keybindings::laws::law_resolves_what_can_be_bound(entries);
    assert forall|j: int, k: int| 0 <= j < k < bindings.len() implies (
    #[trigger] bindings[j]).1.tmux != (#[trigger] bindings[k]).1.tmux by {
        lemma_named_shortcut(entries, bindings[j]);
        lemma_named_shortcut(entries, bindings[k]);
        let a = bindings[j].1.event;
        let b = bindings[k].1.event;
        if bindings[j].1.tmux == bindings[k].1.tmux {
            keybindings::distinct::law_tmux_names_are_distinct(
                a.code,
                a.modifiers,
                b.code,
                b.modifiers,
            );
            assert(a == b);
        }
    }
    lemma_separate_keys(bindings, socket, i);
}

proof fn lemma_named_shortcut(
    entries: Seq<(keybindings::Action, Seq<char>)>,
    binding: (keybindings::Action, keybindings::ShortcutView),
)
    requires
        keybindings::laws::given(entries, binding),
    ensures
        ({
            let event = binding.1.event;
            &&& keybindings::laws::nameable(event.code, event.modifiers)
            &&& binding.1 == keybindings::shortcut_for(event.code, event.modifiers)
            &&& event == KeyEvent::new(event.code, event.modifiers)
            &&& exists|k: int| keybindings::laws::gives(entries, k, binding)
        }),
{
    let k = choose|k: int| keybindings::laws::gives(entries, k, binding);
    keybindings::laws::law_parsed_shortcuts_are_canonical(entries[k].1);
}

/// No configuration takes C-q, which detaches.
pub proof fn law_detach_key_stays_free(
    entries: Seq<(keybindings::Action, Seq<char>)>,
    socket: Option<Seq<char>>,
)
    requires
        keybindings::resolved(entries) is Ok,
    ensures
        !attach::planned(keybindings::resolved(entries)->Ok_0, socket).contains_key("C-q"@),
{
    let bindings = keybindings::resolved(entries)->Ok_0;
    let control = KeyModifiers { control: true, ..KeyModifiers::none() };
    let quit = keybindings::shortcut_for(KeyCode::Char('q'), control);
    reveal_strlit("C-q");
    reveal_strlit("C-");
    reveal_strlit("S-Left");
    reveal_strlit("S-Right");
    assert("C-q"@.len() == 3 && "S-Left"@.len() == 6 && "S-Right"@.len() == 7);
    assert(quit.tmux =~= "C-q"@);
    law_planned_keys(bindings, socket, "C-q"@);
    keybindings::laws::law_resolves_what_can_be_bound(entries);
    if attach::planned(bindings, socket).contains_key("C-q"@) {
        let i = choose|i: int|
            0 <= i < bindings.len() && (#[trigger] bindings[i]).1.tmux == "C-q"@;
        let event = bindings[i].1.event;
        lemma_named_shortcut(entries, bindings[i]);
        keybindings::distinct::law_tmux_names_are_distinct(
            event.code,
            event.modifiers,
            KeyCode::Char('q'),
            control,
        );
        let k = choose|k: int| keybindings::laws::gives(entries, k, bindings[i]);
        assert(keybindings::reserved(event));
    }
}

/// Shift with Left or Right is passed to the application where it is no
/// shortcut.
pub proof fn law_shift_arrows_are_released(
    bindings: Seq<(keybindings::Action, keybindings::ShortcutView)>,
    socket: Option<Seq<char>>,
    key: Seq<char>,
)
    requires
        key == "S-Left"@ || key == "S-Right"@,
        forall|i: int| 0 <= i < bindings.len() ==> (#[trigger] bindings[i]).1.tmux != key,
    ensures
        attach::planned(bindings, socket).contains_key(key),
        attach::planned(bindings, socket)[key] == seq!["send-keys"@],
    decreases bindings.len(),
{
    if bindings.len() > 0 {
        let init = bindings.drop_last();
        assert(forall|j: int| 0 <= j < init.len() ==> init[j] == bindings[j]);
        law_shift_arrows_are_released(init, socket, key);
        assert(bindings[bindings.len() - 1].1.tmux != key);
    }
}

/// No root key is bound before the bindings are saved, and none at all where
/// they could not be saved.
pub proof fn law_saves_before_binding(install: attach::InstallView, reply: command::Reply)
    ensures
        !(install.stage is Bind) ==> forall|i: int|
            0 <= i < attach::due(install).len() ==> bound_by(#[trigger] attach::due(install)[i])
                is None,
        attach::advanced(install, reply).stage is Bind ==> install.stage is Persist && reply.ok(),
        install.stage is Persist && !reply.ok() ==> attach::due(
            attach::advanced(install, reply),
        ).len() == 0,
{
    lemma_other_requests(install.socket, install.hint, Map::empty());
    if let attach::StageView::ListRoot(saved) = install.stage {
        let entries = text_map::in_order(saved);
        lemma_restores_bind_nothing(install.socket, entries, install.plan.dom());
        let some = attach::restores(install.socket, entries, install.plan.dom());
        let requests = attach::due(install);
        assert forall|i: int| 0 <= i < requests.len() implies bound_by(#[trigger] requests[i])
            is None by {
            if i < some.len() {
                assert(requests[i] == some[i]);
            }
        }
    }
    if let attach::StageView::Persist(saved) = install.stage {
        lemma_other_requests(install.socket, install.hint, saved);
    }
}

proof fn lemma_restores_bind_nothing(
    socket: Option<Seq<char>>,
    saved: Seq<(Seq<char>, Seq<char>)>,
    kept: Set<Seq<char>>,
)
    ensures
        ({
            let requests = attach::restores(socket, saved, kept);
            forall|i: int| 0 <= i < requests.len() ==> bound_by(#[trigger] requests[i]) is None
        }),
    decreases saved.len(),
{
    if saved.len() > 0 {
        let (key, line) = saved.last();
        let before = attach::restores(socket, saved.drop_last(), kept);
        let requests = attach::restores(socket, saved, kept);
        lemma_restores_bind_nothing(socket, saved.drop_last(), kept);
        lemma_root_keys(socket, key, line, Seq::empty());
        assert forall|i: int| 0 <= i < requests.len() implies bound_by(#[trigger] requests[i])
            is None by {
            if i < before.len() {
                assert(requests[i] == before[i]);
            } else {
                assert(requests[i] == attach::restore(socket, key, line)[i - before.len()]);
            }
        }
    }
}

/// Installing again keeps what was saved, whatever the root keys are bound to
/// by then: a binding of an earlier installation is never taken for an
/// original.
pub proof fn law_originals_are_kept(
    plan: Map<Seq<char>, Seq<Seq<char>>>,
    saved: Map<Seq<char>, Seq<char>>,
    listing: Seq<char>,
    later: Seq<char>,
)
    ensures
        forall|key: Seq<char>|
            plan.contains_key(key) && #[trigger] saved.contains_key(key) ==> attach::remembered(
                plan,
                saved,
                listing,
            )[key] == saved[key],
        attach::remembered(plan, attach::remembered(plan, saved, listing), later)
            == attach::remembered(plan, saved, listing),
{
    let once = attach::remembered(plan, saved, listing);
    let twice = attach::remembered(plan, once, later);
    assert forall|key: Seq<char>| twice.contains_key(key) implies twice[key] == once[key] by {
        assert(once.contains_key(key));
    }
    assert(twice =~= once);
}

/// Installing the same keys again, or more, restores none of them in between:
/// once what is saved is known, the root keys are listed and that is all.
pub proof fn law_reinstalling_restores_nothing(
    install: attach::InstallView,
    saved: Map<Seq<char>, Seq<char>>,
)
    requires
        install.stage == attach::StageView::ListRoot(saved),
        text_map::orderable(saved),
        saved.dom().subset_of(install.plan.dom()),
    ensures
        attach::due(install) == seq![
            command::run_request(install.socket, seq!["list-keys"@, "-T"@, "root"@]),
        ],
{
    let entries = text_map::in_order(saved);
    assert forall|i: int| 0 <= i < entries.len() implies install.plan.dom().contains(
        (#[trigger] entries[i]).0,
    ) by {
        text_map::lemma_map_of(entries, i);
        assert(saved.dom().contains(entries[i].0));
    }
    lemma_all_kept(install.socket, entries, install.plan.dom());
    assert(attach::due(install) =~= seq![
        command::run_request(install.socket, seq!["list-keys"@, "-T"@, "root"@]),
    ]);
}

proof fn lemma_all_kept(
    socket: Option<Seq<char>>,
    saved: Seq<(Seq<char>, Seq<char>)>,
    kept: Set<Seq<char>>,
)
    requires
        forall|i: int| 0 <= i < saved.len() ==> kept.contains((#[trigger] saved[i]).0),
    ensures
        attach::restores(socket, saved, kept).len() == 0,
    decreases saved.len(),
{
    if saved.len() > 0 {
        let init = saved.drop_last();
        assert(forall|i: int| 0 <= i < init.len() ==> init[i] == saved[i]);
        lemma_all_kept(socket, init, kept);
        assert(kept.contains(saved[saved.len() - 1].0));
    }
}

proof fn lemma_bound_once(
    server: Option<Seq<char>>,
    table: KeyTable,
    requests: Seq<command::RequestView>,
    done: Set<int>,
    shown: spec_fn(Seq<Seq<char>>) -> Seq<char>,
    key: Seq<char>,
    i: int,
)
    requires
        0 <= i < requests.len(),
        done.contains(i),
        requests[i].socket == server,
        unbound_by(requests[i]) is None,
        bound_by(requests[i]) == Some(key),
        forall|j: int| i < j < requests.len() ==> leaves(#[trigger] requests[j], key),
    ensures
        ({
            let after = performed_some(server, table, requests, done, shown);
            after.contains_key(key) && after[key] == shown(requests[i].args)
        }),
    decreases requests.len(),
{
    if i < requests.len() - 1 {
        let init = requests.drop_last();
        assert(forall|j: int| 0 <= j < init.len() ==> init[j] == requests[j]);
        lemma_bound_once(server, table, init, done, shown, key, i);
        assert(leaves(requests[requests.len() - 1], key));
    }
}

/// What binding the planned keys makes of one of them does not depend on how it
/// was bound before.
proof fn lemma_rebound(
    a: KeyTable,
    b: KeyTable,
    install: attach::InstallView,
    done: Set<int>,
    shown: spec_fn(Seq<Seq<char>>) -> Seq<char>,
    key: Seq<char>,
)
    requires
        text_map::orderable(install.plan),
        install.stage == attach::StageView::Bind,
        all_done(attach::due(install), done),
        install.plan.contains_key(key),
        install.plan[key].len() > 0,
    ensures
        alike(
            performed_some(install.socket, a, attach::due(install), done, shown),
            performed_some(install.socket, b, attach::due(install), done, shown),
            key,
        ),
{
    let requests = attach::due(install);
    let entries = text_map::in_order(install.plan);
    text_map::lemma_entry_keys(install.plan, key);
    let p = text_map::place_of(entries, key);
    text_map::lemma_map_of(entries, p);
    lemma_other_requests(install.socket, install.hint, Map::empty());
    lemma_root_keys(install.socket, key, Seq::empty(), entries[p].1);
    let bind = attach::bind_root(install.socket, key, entries[p].1);
    assert(requests[p + 1] == bind);
    assert(bind.args.len() > 4);
    assert(bound_by(bind) == Some(key)) by {
        assert(bind.args[0] == "bind-key"@ && bind.args[1] == "-T"@ && bind.args[2] == "root"@);
    }
    assert forall|j: int| p + 1 < j < requests.len() implies leaves(#[trigger] requests[j], key)
        by {
        if j < requests.len() - 1 {
            let entry = entries[j - 1];
            assert(requests[j] == attach::bind_root(install.socket, entry.0, entry.1));
            lemma_root_keys(install.socket, entry.0, Seq::empty(), entry.1);
            assert(text::precedes(entries[p].0, entry.0));
            text_map::lemma_precedes_irreflexive(key);
        }
    }
    assert(done.contains(p + 1));
    lemma_bound_once(install.socket, a, requests, done, shown, key, p + 1);
    lemma_bound_once(install.socket, b, requests, done, shown, key, p + 1);
}

/// A planned key has a command.
pub proof fn lemma_commands(
    bindings: Seq<(keybindings::Action, keybindings::ShortcutView)>,
    socket: Option<Seq<char>>,
    key: Seq<char>,
)
    requires
        attach::planned(bindings, socket).contains_key(key),
    ensures
        attach::planned(bindings, socket)[key].len() > 0,
    decreases bindings.len(),
{
    if bindings.len() > 0 && bindings.last().1.tmux != key {
        lemma_commands(bindings.drop_last(), socket, key);
    }
}

/// Binding the keys of a configuration again changes nothing.
pub proof fn law_binding_again_changes_nothing(
    table: KeyTable,
    socket: Option<Seq<char>>,
    bindings: Seq<(keybindings::Action, keybindings::ShortcutView)>,
    done: Set<int>,
    shown: spec_fn(Seq<Seq<char>>) -> Seq<char>,
)
    requires
        all_done(
            attach::bind_requests(
                socket,
                attach::planned(bindings, socket),
                attach::binding_hint(bindings),
            ),
            done,
        ),
    ensures
        ({
            let requests = attach::bind_requests(
                socket,
                attach::planned(bindings, socket),
                attach::binding_hint(bindings),
            );
            let once = performed_some(socket, table, requests, done, shown);
            performed_some(socket, once, requests, done, shown) == once
        }),
{
    let install = attach::InstallView {
        stage: attach::StageView::Bind,
        ..attach::install_start(socket, bindings)
    };
    let requests = attach::due(install);
    let once = performed_some(socket, table, requests, done, shown);
    let twice = performed_some(socket, once, requests, done, shown);
    lemma_plan_orderable(bindings, socket);
    assert forall|key: Seq<char>| #[trigger] alike(twice, once, key) by {
        if install.plan.contains_key(key) {
            lemma_commands(bindings, socket, key);
            lemma_rebound(once, table, install, done, shown, key);
        } else {
            lemma_bound(once, install, done, shown, key);
        }
    }
    assert forall|key: Seq<char>| twice.contains_key(key) == once.contains_key(key) by {
        assert(alike(twice, once, key));
    }
    assert forall|key: Seq<char>| twice.contains_key(key) implies twice[key] == once[key] by {
        assert(alike(twice, once, key));
    }
    assert(twice =~= once);
}

} // verus!
