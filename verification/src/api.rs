//! The requests that read and change the configuration and the widgets.

use vstd::prelude::*;

use crate::clock::micros_now;
use crate::config::{Config, Device};
use crate::json::{
    field, int_view, json_views, with_field, Fields, Json, JsonMap, JsonView, NumberView,
};
use crate::numbers::{decimal, decimal_reads_back, parse_unsigned, to_decimal};
use crate::reply::{
    done_reply, error_reply, json_error, ok_map, plain_reply, success, Reply, ReplyView,
};
use crate::text::{
    begins, clip, clipped, clipping_keeps_the_beginning, concat2, concat3, copy_without, is_blank,
    lemma_position, lemma_position_is, position, same, trim, trimmed, views, without,
};
use crate::widgets::{
    coerce_settings, coerced_settings, default_settings, fields_of, type_of, type_views, Field,
    FieldKind, FieldView, TypeView, Widget, WidgetKind, WidgetType,
};

verus! {

/// The version of the server.
pub const VERSION: &'static str = "1.0.0";

/// How many characters a title may have.
pub const MAX_TITLE: usize = 60;

/// The ids of widgets.
pub open spec fn widget_ids(v: Seq<Widget>) -> Seq<Seq<char>> {
    Seq::new(v.len(), |i: int| v[i].id@)
}

/// Where the first widget of that id stands.
pub fn find_widget(widgets: &Vec<Widget>, id: &str) -> (r: Option<usize>)
    ensures
        match r {
            Some(i) => position(widget_ids(widgets@), id@) == Some(i as nat) && i < widgets@.len(),
            None => position(widget_ids(widgets@), id@) is None,
        },
{
    let ghost ids = widget_ids(widgets@);
    let mut i: usize = 0;
    while i < widgets.len()
        invariant
            i <= widgets@.len(),
            ids == widget_ids(widgets@),
            forall|j: int| 0 <= j < i ==> ids[j] != id@,
        decreases widgets.len() - i,
    {
        assert(ids[i as int] == widgets@[i as int].id@);
        if same(widgets[i].id.as_str(), id) {
            proof {
                lemma_position_is(ids, id@, i as int);
            }
            return Some(i);
        }
        i = i + 1;
    }
    proof {
        lemma_position(ids, id@);
    }
    None
}

// ---------------------------------------------------------------------------
// Widgets as JSON
// ---------------------------------------------------------------------------

/// A widget as JSON.
pub open spec fn widget_view(
    id: Seq<char>,
    kind: WidgetKind,
    title: Seq<char>,
    icon: Seq<char>,
    settings: Fields,
) -> JsonView {
    let m = with_field(seq![], "id"@, JsonView::Str(id));
    let m = with_field(m, "kind"@, JsonView::Str(kind.name()));
    let m = with_field(m, "title"@, JsonView::Str(title));
    let m = with_field(m, "icon"@, JsonView::Str(icon));
    JsonView::Object(with_field(m, "settings"@, JsonView::Object(settings)))
}

/// A widget as JSON.
pub fn widget_json(w: &Widget) -> (r: Json)
    ensures
        r@ == widget_view(w.id@, w.kind, w.title@, w.icon@, w.settings@),
{
    let mut m = JsonMap::new();
    m.insert("id", Json::text(w.id.as_str()));
    m.insert("kind", Json::text(w.kind.as_str()));
    m.insert("title", Json::text(w.title.as_str()));
    m.insert("icon", Json::text(w.icon.as_str()));
    m.insert("settings", Json::object(w.settings.dup()));
    Json::object(m)
}

/// The name of a kind of field.
pub open spec fn field_kind_name(k: FieldKind) -> Seq<char> {
    match k {
        FieldKind::Text => "text"@,
        FieldKind::Number => "number"@,
        FieldKind::Checkbox => "checkbox"@,
        FieldKind::Select => "select"@,
        FieldKind::Textarea => "textarea"@,
    }
}

/// The options of a field as JSON: pairs of a value and its label.
pub open spec fn options_view(options: Seq<(Seq<char>, Seq<char>)>) -> JsonView {
    JsonView::Array(
        options.map_values(
            |o: (Seq<char>, Seq<char>)|
                JsonView::Array(seq![JsonView::Str(o.0), JsonView::Str(o.1)]),
        ),
    )
}

/// A field as JSON. What is not set is left out.
pub open spec fn field_json_view(f: FieldView) -> JsonView {
    let m = with_field(seq![], "key"@, JsonView::Str(f.key));
    let m = with_field(m, "label"@, JsonView::Str(f.label));
    let m = with_field(m, "kind"@, JsonView::Str(field_kind_name(f.kind)));
    let m = with_field(m, "default"@, f.default);
    let m = match f.hint {
        Some(h) => with_field(m, "hint"@, JsonView::Str(h)),
        None => m,
    };
    let m = match f.min {
        Some(n) => with_field(m, "min"@, int_view(n)),
        None => m,
    };
    let m = match f.max {
        Some(n) => with_field(m, "max"@, int_view(n)),
        None => m,
    };
    JsonView::Object(
        if f.options.len() == 0 {
            m
        } else {
            with_field(m, "options"@, options_view(f.options))
        },
    )
}

/// A field as JSON.
pub fn field_json(f: &Field) -> (r: Json)
    ensures
        r@ == field_json_view(f@),
{
    let mut m = JsonMap::new();
    m.insert("key", Json::text(f.key));
    m.insert("label", Json::text(f.label));
    m.insert(
        "kind",
        Json::text(
            match f.kind {
                FieldKind::Text => "text",
                FieldKind::Number => "number",
                FieldKind::Checkbox => "checkbox",
                FieldKind::Select => "select",
                FieldKind::Textarea => "textarea",
            },
        ),
    );
    m.insert("default", f.default.dup());
    if let Some(h) = f.hint {
        m.insert("hint", Json::text(h));
    }
    if let Some(n) = f.min {
        m.insert("min", Json::whole(n));
    }
    if let Some(n) = f.max {
        m.insert("max", Json::whole(n));
    }
    let ghost before = m@;
    if f.options.len() > 0 {
        let ghost ov = f@.options;
        let mut rows: Vec<Json> = Vec::new();
        let mut i: usize = 0;
        while i < f.options.len()
            invariant
                i <= f.options@.len(),
                rows@.len() == i,
                ov == f@.options,
                forall|j: int|
                    0 <= j < i ==> (#[trigger] rows@[j])@ == JsonView::Array(
                        seq![JsonView::Str(ov[j].0), JsonView::Str(ov[j].1)],
                    ),
            decreases f.options.len() - i,
        {
            let mut pair: Vec<Json> = Vec::new();
            pair.push(Json::text(f.options[i].0));
            pair.push(Json::text(f.options[i].1));
            assert(json_views(pair@) =~= seq![
                JsonView::Str(ov[i as int].0),
                JsonView::Str(ov[i as int].1),
            ]);
            rows.push(Json::array(pair));
            i = i + 1;
        }
        assert(JsonView::Array(json_views(rows@)) == options_view(ov)) by {
            assert(json_views(rows@) =~= ov.map_values(
                |o: (Seq<char>, Seq<char>)|
                    JsonView::Array(seq![JsonView::Str(o.0), JsonView::Str(o.1)]),
            ));
        }
        m.insert("options", Json::array(rows));
    }
    Json::object(m)
}

/// What the registry says of a kind as JSON.
pub open spec fn type_json_view(t: TypeView) -> JsonView {
    let m = with_field(seq![], "kind"@, JsonView::Str(t.kind.name()));
    let m = with_field(m, "label"@, JsonView::Str(t.label));
    let m = with_field(m, "title"@, JsonView::Str(t.title));
    let m = with_field(m, "icon"@, JsonView::Str(t.icon));
    JsonView::Object(
        with_field(
            m,
            "fields"@,
            JsonView::Array(t.fields.map_values(|f: FieldView| field_json_view(f))),
        ),
    )
}

/// What the registry says of a kind as JSON.
pub fn type_json(t: &WidgetType) -> (r: Json)
    ensures
        r@ == type_json_view(t@),
{
    let mut rows: Vec<Json> = Vec::new();
    let mut i: usize = 0;
    while i < t.fields.len()
        invariant
            i <= t.fields@.len(),
            rows@.len() == i,
            forall|j: int| 0 <= j < i ==> (#[trigger] rows@[j])@ == field_json_view(t.fields@[j]@),
        decreases t.fields.len() - i,
    {
        rows.push(field_json(&t.fields[i]));
        i = i + 1;
    }
    assert(json_views(rows@) =~= t@.fields.map_values(|f: FieldView| field_json_view(f)));
    let mut m = JsonMap::new();
    m.insert("kind", Json::text(t.kind.as_str()));
    m.insert("label", Json::text(t.label));
    m.insert("title", Json::text(t.title));
    m.insert("icon", Json::text(t.icon));
    m.insert("fields", Json::array(rows));
    Json::object(m)
}

/// The registry as JSON.
pub open spec fn types_view(types: Seq<TypeView>) -> JsonView {
    JsonView::Array(types.map_values(|t: TypeView| type_json_view(t)))
}

/// The registry as JSON.
fn types_json(types: &Vec<WidgetType>) -> (r: Json)
    ensures
        r@ == types_view(type_views(types@)),
{
    let mut rows: Vec<Json> = Vec::new();
    let mut i: usize = 0;
    while i < types.len()
        invariant
            i <= types@.len(),
            rows@.len() == i,
            forall|j: int| 0 <= j < i ==> (#[trigger] rows@[j])@ == type_json_view(types@[j]@),
        decreases types.len() - i,
    {
        rows.push(type_json(&types[i]));
        i = i + 1;
    }
    assert(json_views(rows@) =~= type_views(types@).map_values(|t: TypeView| type_json_view(t)));
    Json::array(rows)
}

// ---------------------------------------------------------------------------
// Reading
// ---------------------------------------------------------------------------

/// What the server says of itself.
pub fn version() -> (r: Reply)
    ensures
        r@ == plain_reply(
            200,
            JsonView::Object(
                with_field(
                    with_field(
                        with_field(seq![], "name"@, JsonView::Str("MinDash"@)),
                        "version"@,
                        JsonView::Str(VERSION@),
                    ),
                    "runtime"@,
                    JsonView::Str("rust"@),
                ),
            ),
        ),
{
    let mut m = JsonMap::new();
    m.insert("name", Json::text("MinDash"));
    m.insert("version", Json::text(VERSION));
    m.insert("runtime", Json::text("rust"));
    Reply::json(200, Json::object(m))
}

/// Writes the count of changes into a copy of the configuration that is sent
/// out, so that a client that missed a change still learns of it.
pub fn stamp(cfg: &mut Config, revision: u64)
    ensures
        final(cfg).settings.revision == revision,
        final(cfg).settings.section_order == old(cfg).settings.section_order,
        final(cfg).settings.show_devices == old(cfg).settings.show_devices,
        final(cfg).settings.show_links == old(cfg).settings.show_links,
        final(cfg).settings.show_quick_actions == old(cfg).settings.show_quick_actions,
        final(cfg).settings.show_tasks == old(cfg).settings.show_tasks,
        final(cfg).settings.theme == old(cfg).settings.theme,
        final(cfg).devices == old(cfg).devices,
        final(cfg).links == old(cfg).links,
        final(cfg).quick_actions == old(cfg).quick_actions,
        final(cfg).tasks == old(cfg).tasks,
        final(cfg).widgets == old(cfg).widgets,
        final(cfg).onboarding_done == old(cfg).onboarding_done,
{
    cfg.settings.revision = revision;
}

/// The reply with the configuration, which is already JSON.
pub fn get_config(config: Json, auth_enabled: bool) -> (r: Reply)
    ensures
        r@ == plain_reply(
            200,
            JsonView::Object(
                with_field(
                    with_field(
                        with_field(success(), "auth_enabled"@, JsonView::Bool(auth_enabled)),
                        "config"@,
                        config@,
                    ),
                    "widget_types"@,
                    types_view(crate::widgets::registry()),
                ),
            ),
        ),
{
    let mut m = ok_map();
    m.insert("auth_enabled", Json::Bool(auth_enabled));
    m.insert("config", config);
    let types = crate::widgets::all_types();
    m.insert("widget_types", types_json(&types));
    Reply::json(200, Json::object(m))
}

/// The reply with the registry.
pub fn widget_types() -> (r: Reply)
    ensures
        r@ == plain_reply(
            200,
            JsonView::Object(
                with_field(success(), "types"@, types_view(crate::widgets::registry())),
            ),
        ),
{
    let mut m = ok_map();
    let types = crate::widgets::all_types();
    m.insert("types", types_json(&types));
    Reply::json(200, Json::object(m))
}

/// A count as JSON.
pub open spec fn num(n: u64) -> JsonView {
    JsonView::Number(NumberView::PosInt(n))
}

/// The reply that says how the server is.
pub fn health(cfg: &Config, uptime_secs: u64, revision: u64) -> (r: Reply)
    ensures
        r@ == plain_reply(
            200,
            JsonView::Object(
                with_field(
                    with_field(
                        with_field(
                            with_field(success(), "uptime_secs"@, num(uptime_secs)),
                            "devices"@,
                            num(cfg.devices@.len() as u64),
                        ),
                        "widgets"@,
                        num(cfg.widgets@.len() as u64),
                    ),
                    "revision"@,
                    num(revision),
                ),
            ),
        ),
{
    let mut m = ok_map();
    m.insert("uptime_secs", Json::count(uptime_secs));
    m.insert("devices", Json::count(cfg.devices.len() as u64));
    m.insert("widgets", Json::count(cfg.widgets.len() as u64));
    m.insert("revision", Json::count(revision));
    Reply::json(200, Json::object(m))
}

// ---------------------------------------------------------------------------
// Replacing the configuration
// ---------------------------------------------------------------------------

/// Replaces the configuration. Where the incoming one has no widgets and there
/// are some, they are kept: a client that does not know of widgets must not wipe
/// them.
pub fn put_config(cfg: &mut Config, incoming: Config)
    ensures
        final(cfg).widgets == if incoming.widgets@.len() == 0 && old(cfg).widgets@.len() > 0 {
            old(cfg).widgets
        } else {
            incoming.widgets
        },
        final(cfg).settings == incoming.settings,
        final(cfg).devices == incoming.devices,
        final(cfg).links == incoming.links,
        final(cfg).quick_actions == incoming.quick_actions,
        final(cfg).tasks == incoming.tasks,
        final(cfg).onboarding_done == incoming.onboarding_done,
        old(cfg).widgets@.len() > 0 ==> final(cfg).widgets@.len() > 0,
{
    let keep = incoming.widgets.len() == 0 && cfg.widgets.len() > 0;
    cfg.settings = incoming.settings;
    cfg.devices = incoming.devices;
    cfg.links = incoming.links;
    cfg.quick_actions = incoming.quick_actions;
    cfg.tasks = incoming.tasks;
    cfg.onboarding_done = incoming.onboarding_done;
    if !keep {
        cfg.widgets = incoming.widgets;
    }
}

/// The reply to a replaced configuration, given what came of storing it.
pub fn put_reply(stored: Result<(), String>) -> (r: Reply)
    ensures
        r@ == match stored {
            Ok(()) => done_reply(),
            Err(e) => error_reply(200, e@),
        },
{
    match stored {
        Ok(()) => Reply::done(),
        Err(e) => json_error(200, e.as_str()),
    }
}

// ---------------------------------------------------------------------------
// Adding a widget
// ---------------------------------------------------------------------------

/// A request for a new widget. Settings that are not given are null.
#[derive(Debug)]
pub struct NewWidget {
    pub kind: WidgetKind,
    pub settings: Json,
}

/// The id of a widget of that kind, made at that time.
pub open spec fn widget_id(kind: WidgetKind, micros: nat) -> Seq<char> {
    kind.name() + "-"@ + decimal(micros)
}

/// Is this the widget that the request asks for? Its settings are those given,
/// brought into shape, or the defaults.
pub open spec fn is_made(w: Widget, body: NewWidget, micros: nat) -> bool {
    &&& w.id@ == widget_id(body.kind, micros)
    &&& w.kind == body.kind
    &&& w.title@ == type_of(body.kind).title
    &&& w.icon@ == type_of(body.kind).icon
    &&& w.settings@ == if body.settings is Null {
        default_settings(fields_of(body.kind))
    } else {
        coerced_settings(fields_of(body.kind), body.settings@)
    }
}

/// Is nothing but the widgets different?
pub open spec fn only_widgets_differ(a: Config, b: Config) -> bool {
    &&& a.settings == b.settings
    &&& a.devices == b.devices
    &&& a.links == b.links
    &&& a.quick_actions == b.quick_actions
    &&& a.tasks == b.tasks
    &&& a.onboarding_done == b.onboarding_done
}

/// Adds the widget that a request asks for, made at that time, and hands back
/// how it reads.
pub fn create_at(cfg: &mut Config, body: &NewWidget, micros: u128) -> (r: Json)
    ensures
        final(cfg).widgets@.len() == old(cfg).widgets@.len() + 1,
        final(cfg).widgets@.drop_last() == old(cfg).widgets@,
        is_made(final(cfg).widgets@.last(), *body, micros as nat),
        only_widgets_differ(*old(cfg), *final(cfg)),
        ({
            let w = final(cfg).widgets@.last();
            r@ == widget_view(w.id@, w.kind, w.title@, w.icon@, w.settings@)
        }),
{
    let ghost before = cfg.widgets@;
    let number = to_decimal(micros);
    let id = concat3(body.kind.as_str(), "-", number.as_str());
    let mut widget = Widget::new(id.as_str(), body.kind);
    let given = match &body.settings {
        Json::Null => false,
        _ => true,
    };
    if given {
        widget.settings = coerce_settings(body.kind, &body.settings);
    }
    let shown = widget_json(&widget);
    cfg.widgets.push(widget);
    assert(cfg.widgets@.drop_last() =~= before);
    shown
}

/// Adds the widget that a request asks for, made now.
pub fn create_widget(cfg: &mut Config, body: &NewWidget) -> (r: Json)
    ensures
        final(cfg).widgets@.len() == old(cfg).widgets@.len() + 1,
        final(cfg).widgets@.drop_last() == old(cfg).widgets@,
        exists|micros: u128| #[trigger] is_made(final(cfg).widgets@.last(), *body, micros as nat),
        only_widgets_differ(*old(cfg), *final(cfg)),
        ({
            let w = final(cfg).widgets@.last();
            r@ == widget_view(w.id@, w.kind, w.title@, w.icon@, w.settings@)
        }),
{
    let micros: u128 = micros_now();
    let r = create_at(cfg, body, micros);
    assert(is_made(cfg.widgets@.last(), *body, micros as nat));
    r
}

/// The reply with a widget.
pub open spec fn widget_reply(status: u16, widget: JsonView) -> ReplyView {
    plain_reply(status, JsonView::Object(with_field(success(), "widget"@, widget)))
}

/// The reply to a new widget, given what came of storing the configuration.
pub fn created_reply(widget: Json, stored: Result<(), String>) -> (r: Reply)
    ensures
        r@ == match stored {
            Ok(()) => widget_reply(201, widget@),
            Err(e) => error_reply(500, e@),
        },
{
    match stored {
        Ok(()) => {
            let mut m = ok_map();
            m.insert("widget", widget);
            Reply::json(201, Json::object(m))
        },
        Err(e) => json_error(500, e.as_str()),
    }
}

// ---------------------------------------------------------------------------
// Changing a widget
// ---------------------------------------------------------------------------

/// A request to change a widget.
#[derive(Debug)]
pub struct WidgetPatch {
    pub settings: Option<Json>,
    pub title: Option<String>,
}

/// Is `after` the widget `before` with the changes made? Settings are brought
/// into shape; a blank title changes nothing, and a long one is cut.
pub open spec fn is_patched(before: Widget, p: WidgetPatch, after: Widget) -> bool {
    &&& after.id == before.id
    &&& after.kind == before.kind
    &&& after.icon == before.icon
    &&& after.settings@ == match p.settings {
        Some(s) => coerced_settings(fields_of(before.kind), s@),
        None => before.settings@,
    }
    &&& after.title@ == match p.title {
        Some(t) => if trimmed(t@).len() == 0 {
            before.title@
        } else {
            clipped(trimmed(t@), MAX_TITLE as int)
        },
        None => before.title@,
    }
}

/// Changes the first widget of that id and hands back how it reads, or changes
/// nothing where there is none.
pub fn update_widget(cfg: &mut Config, id: &str, patch: &WidgetPatch) -> (r: Option<Json>)
    ensures
        only_widgets_differ(*old(cfg), *final(cfg)),
        match position(widget_ids(old(cfg).widgets@), id@) {
            None => r is None && final(cfg).widgets@ == old(cfg).widgets@,
            Some(i) => {
                &&& final(cfg).widgets@ == old(cfg).widgets@.update(
                    i as int,
                    final(cfg).widgets@[i as int],
                )
                &&& is_patched(
                    old(cfg).widgets@[i as int],
                    *patch,
                    final(cfg).widgets@[i as int],
                )
                &&& r matches Some(j) && ({
                    let w = final(cfg).widgets@[i as int];
                    j@ == widget_view(w.id@, w.kind, w.title@, w.icon@, w.settings@)
                })
            },
        },
{
    let i: usize = match find_widget(&cfg.widgets, id) {
        Some(i) => i,
        None => {
            return None;
        },
    };
    let w = &cfg.widgets[i];
    let settings = match &patch.settings {
        Some(s) => coerce_settings(w.kind, s),
        None => w.settings.dup(),
    };
    let title = match &patch.title {
        Some(t) => {
            let t = trim(t.as_str());
            if t.as_str().is_empty() {
                w.title.clone()
            } else {
                clip(t.as_str(), MAX_TITLE)
            }
        },
        None => w.title.clone(),
    };
    let changed = Widget { id: w.id.clone(), kind: w.kind, title, icon: w.icon.clone(), settings };
    let shown = widget_json(&changed);
    cfg.widgets.set(i, changed);
    Some(shown)
}

/// The reply to a changed widget: `found` is how it reads, where there is one,
/// and `stored` what came of storing the configuration.
pub fn updated_reply(found: Option<Json>, stored: Result<(), String>) -> (r: Reply)
    ensures
        r@ == match (stored, found) {
            (Err(e), _) => error_reply(500, e@),
            (Ok(()), None) => error_reply(404, "Widget not found"@),
            (Ok(()), Some(w)) => widget_reply(200, w@),
        },
{
    match stored {
        Err(e) => json_error(500, e.as_str()),
        Ok(()) => match found {
            None => json_error(404, "Widget not found"),
            Some(w) => {
                let mut m = ok_map();
                m.insert("widget", w);
                Reply::json(200, Json::object(m))
            },
        },
    }
}

// ---------------------------------------------------------------------------
// Removing a widget
// ---------------------------------------------------------------------------

/// The widgets that do not have that id, in their order.
pub open spec fn others(v: Seq<Widget>, id: Seq<char>) -> Seq<Widget>
    decreases v.len(),
{
    if v.len() == 0 {
        v
    } else if v[0].id@ == id {
        others(v.drop_first(), id)
    } else {
        seq![v[0]] + others(v.drop_first(), id)
    }
}

/// What is left has no widget of that id, and keeps every other one.
pub proof fn removing_removes_one_id(v: Seq<Widget>, id: Seq<char>, w: Widget)
    ensures
        others(v, id).len() <= v.len(),
        others(v, id).contains(w) <==> v.contains(w) && w.id@ != id,
        others(v, id).len() == v.len() ==> others(v, id) == v,
        others(v, id).len() == v.len() <==> position(widget_ids(v), id) is None,
        others(others(v, id), id) == others(v, id),
    decreases v.len(),
{
    if v.len() > 0 {
        let t = v.drop_first();
        removing_removes_one_id(t, id, w);
        let rest = others(t, id);
        let out = others(v, id);
        assert(widget_ids(v).drop_first() =~= widget_ids(t));
        assert(widget_ids(v)[0] == v[0].id@);
        assert(v =~= seq![v[0]] + t);
        assert(v.contains(w) <==> v[0] == w || t.contains(w)) by {
            if t.contains(w) {
                let k = choose|k: int| 0 <= k < t.len() && t[k] == w;
                assert(v[k + 1] == w);
            }
            if v.contains(w) && v[0] != w {
                let k = choose|k: int| 0 <= k < v.len() && v[k] == w;
                assert(t[k - 1] == w);
            }
        }
        if v[0].id@ != id {
            assert(out.drop_first() =~= rest);
            assert(out.contains(w) <==> v[0] == w || rest.contains(w)) by {
                if rest.contains(w) {
                    let k = choose|k: int| 0 <= k < rest.len() && rest[k] == w;
                    assert(out[k + 1] == w);
                }
                if v[0] == w {
                    assert(out[0] == w);
                }
                if out.contains(w) && v[0] != w {
                    let k = choose|k: int| 0 <= k < out.len() && out[k] == w;
                    assert(rest[k - 1] == w);
                }
            }
        }
    }
}

/// Removes the widgets of that id, and where there were any, the section that
/// showed them. Says whether there were any.
pub fn delete_widget(cfg: &mut Config, id: &str) -> (r: bool)
    ensures
        final(cfg).widgets@ == others(old(cfg).widgets@, id@),
        r == (position(widget_ids(old(cfg).widgets@), id@) is Some),
        views(final(cfg).settings.section_order@) == if r {
            without(views(old(cfg).settings.section_order@), "w-"@ + id@)
        } else {
            views(old(cfg).settings.section_order@)
        },
        final(cfg).settings.show_devices == old(cfg).settings.show_devices,
        final(cfg).settings.show_links == old(cfg).settings.show_links,
        final(cfg).settings.show_quick_actions == old(cfg).settings.show_quick_actions,
        final(cfg).settings.show_tasks == old(cfg).settings.show_tasks,
        final(cfg).settings.theme == old(cfg).settings.theme,
        final(cfg).settings.revision == old(cfg).settings.revision,
        final(cfg).devices == old(cfg).devices,
        final(cfg).links == old(cfg).links,
        final(cfg).quick_actions == old(cfg).quick_actions,
        final(cfg).tasks == old(cfg).tasks,
        final(cfg).onboarding_done == old(cfg).onboarding_done,
{
    let ghost all = cfg.widgets@;
    let before: usize = cfg.widgets.len();
    remove_id(&mut cfg.widgets, id);
    let removed = cfg.widgets.len() != before;
    proof {
        removing_removes_one_id(all, id@, arbitrary());
    }
    if removed {
        let key = concat2("w-", id);
        let kept = copy_without(&cfg.settings.section_order, key.as_str());
        cfg.settings.section_order = kept;
    }
    removed
}

/// Removes the widgets of that id.
fn remove_id(widgets: &mut Vec<Widget>, id: &str)
    ensures
        final(widgets)@ == others(old(widgets)@, id@),
{
    let ghost all = widgets@;
    let mut i: usize = 0;
    assert(all.skip(0) =~= all);
    assert(all.take(0) + others(all, id@) =~= others(all, id@));
    while i < widgets.len()
        invariant
            i <= widgets@.len(),
            all == old(widgets)@,
            widgets@.take(i as int) + others(widgets@.skip(i as int), id@) == others(all, id@),
        decreases widgets.len() - i,
    {
        let ghost now = widgets@;
        let ghost rest = now.skip(i as int);
        assert(rest[0] == now[i as int]);
        assert(rest.drop_first() =~= now.skip(i + 1));
        if same(widgets[i].id.as_str(), id) {
            let _ = widgets.remove(i);
            assert(widgets@.take(i as int) =~= now.take(i as int));
            assert(widgets@.skip(i as int) =~= now.skip(i + 1));
        } else {
            assert(now.take(i as int) + (seq![now[i as int]] + others(now.skip(i + 1), id@))
                =~= now.take(i + 1) + others(now.skip(i + 1), id@));
            i = i + 1;
        }
    }
    assert(widgets@.skip(i as int) =~= Seq::<Widget>::empty());
    assert(widgets@.take(i as int) + others(widgets@.skip(i as int), id@) =~= widgets@);
}

/// The reply to a removed widget, given what came of storing the configuration.
pub fn deleted_reply(removed: bool, stored: Result<(), String>) -> (r: Reply)
    ensures
        r@ == match stored {
            Err(e) => error_reply(500, e@),
            Ok(()) => if removed {
                done_reply()
            } else {
                error_reply(404, "Widget not found"@)
            },
        },
{
    match stored {
        Err(e) => json_error(500, e.as_str()),
        Ok(()) => if removed {
            Reply::done()
        } else {
            json_error(404, "Widget not found")
        },
    }
}

// ---------------------------------------------------------------------------
// Data of a widget
// ---------------------------------------------------------------------------

/// The reply with the data of a widget.
pub fn widget_data(kind: WidgetKind, data: Json) -> (r: Reply)
    ensures
        r@ == plain_reply(
            200,
            JsonView::Object(
                with_field(
                    with_field(success(), "type"@, JsonView::Str(kind.name())),
                    "data"@,
                    data@,
                ),
            ),
        ),
{
    let mut m = ok_map();
    m.insert("type", Json::text(kind.as_str()));
    m.insert("data", data);
    Reply::json(200, Json::object(m))
}

/// The status of a machine as JSON. The host is online where it reports
/// containers; for another machine it counts whether it could be reached.
pub open spec fn status_view(d: Device, reachable: bool, states: Fields) -> JsonView {
    let m = with_field(seq![], "id"@, JsonView::Str(d.id@));
    let m = with_field(
        m,
        "online"@,
        JsonView::Bool(
            if d.is_host {
                states.len() > 0
            } else {
                reachable
            },
        ),
    );
    let m = with_field(
        m,
        "containers"@,
        JsonView::Object(
            if d.is_host {
                states
            } else {
                seq![]
            },
        ),
    );
    JsonView::Object(with_field(m, "stats"@, JsonView::Null))
}

/// The status of a machine, given whether it could be reached and what the local
/// containers do.
pub fn device_status(d: &Device, reachable: bool, states: &JsonMap) -> (r: Json)
    ensures
        r@ == status_view(*d, reachable, states@),
{
    let mut m = JsonMap::new();
    m.insert("id", Json::text(d.id.as_str()));
    let online = if d.is_host {
        states.len() > 0
    } else {
        reachable
    };
    m.insert("online", Json::Bool(online));
    let shown = if d.is_host {
        states.dup()
    } else {
        JsonMap::new()
    };
    m.insert("containers", Json::object(shown));
    m.insert("stats", Json::Null);
    Json::object(m)
}

/// The status of all machines, given which of them could be reached and what the
/// local containers do.
pub fn device_statuses(devices: &Vec<Device>, reachable: &Vec<bool>, states: &JsonMap) -> (r: Json)
    requires
        reachable@.len() == devices@.len(),
    ensures
        r@ == JsonView::Array(
            Seq::new(devices@.len(), |i: int| status_view(devices@[i], reachable@[i], states@)),
        ),
{
    let mut rows: Vec<Json> = Vec::new();
    let n: usize = devices.len();
    let mut i: usize = 0;
    while i < n
        invariant
            i <= n,
            n == devices@.len(),
            n == reachable@.len(),
            rows@.len() == i,
            forall|j: int|
                0 <= j < i ==> (#[trigger] rows@[j])@ == status_view(
                    devices@[j],
                    reachable@[j],
                    states@,
                ),
        decreases n - i,
    {
        rows.push(device_status(&devices[i], reachable[i], states));
        i = i + 1;
    }
    assert(json_views(rows@) =~= Seq::new(
        devices@.len(),
        |i: int| status_view(devices@[i], reachable@[i], states@),
    ));
    Json::array(rows)
}

/// Is there something to push to a client that has seen the changes up to
/// `last`? Only a change is pushed.
pub fn stream(last: u64, revision: u64) -> (r: Option<u64>)
    ensures
        r == if revision == last {
            None::<u64>
        } else {
            Some(revision)
        },
{
    if revision == last {
        None
    } else {
        Some(revision)
    }
}

// ---------------------------------------------------------------------------
// Laws of the replies
// ---------------------------------------------------------------------------

/// What is handed out of a widget is its own: its id, its kind by name, its title
/// and icon, and its settings.
pub proof fn a_widget_is_handed_out_as_it_is(
    id: Seq<char>,
    kind: WidgetKind,
    title: Seq<char>,
    icon: Seq<char>,
    settings: Fields,
)
    ensures
        ({
            let v = widget_view(id, kind, title, icon, settings);
            &&& v.get("id"@) == Some(JsonView::Str(id))
            &&& v.get("kind"@) == Some(JsonView::Str(kind.name()))
            &&& v.get("title"@) == Some(JsonView::Str(title))
            &&& v.get("icon"@) == Some(JsonView::Str(icon))
            &&& v.get("settings"@) == Some(JsonView::Object(settings))
        }),
{
    broadcast use crate::json::reading_behind_setting;

    reveal_strlit("id");
    reveal_strlit("kind");
    reveal_strlit("title");
    reveal_strlit("icon");
    reveal_strlit("settings");
    assert("id"@.len() == 2 && "kind"@.len() == 4 && "title"@.len() == 5 && "icon"@.len() == 4);
    assert("settings"@.len() == 8);
    assert("kind"@[0] == 'k');
    assert("icon"@[0] == 'i');
}

/// The kinds of field have their names.
pub proof fn the_kinds_of_field_have_their_names(k: FieldKind)
    ensures
        k is Text ==> field_kind_name(k) == "text"@,
        k is Number ==> field_kind_name(k) == "number"@,
        k is Checkbox ==> field_kind_name(k) == "checkbox"@,
        k is Select ==> field_kind_name(k) == "select"@,
        k is Textarea ==> field_kind_name(k) == "textarea"@,
{
}

/// Every option is a pair of its value and its label, in the order of the
/// options.
pub proof fn an_option_is_a_value_and_a_label(options: Seq<(Seq<char>, Seq<char>)>, i: int)
    requires
        0 <= i < options.len(),
    ensures
        options_view(options) matches JsonView::Array(v) && v.len() == options.len()
            && v[i].at(0) == Some(JsonView::Str(options[i].0)) && v[i].at(1) == Some(
            JsonView::Str(options[i].1),
        ) && v[i].at(2) is None,
{
}

/// What is handed out of a field is its own. A hint, a lower and an upper bound
/// are there where the field has them, and so are the options.
pub proof fn a_field_is_handed_out_as_it_is(f: FieldView)
    ensures
        ({
            let v = field_json_view(f);
            &&& v.get("key"@) == Some(JsonView::Str(f.key))
            &&& v.get("label"@) == Some(JsonView::Str(f.label))
            &&& v.get("kind"@) == Some(JsonView::Str(field_kind_name(f.kind)))
            &&& v.get("default"@) == Some(f.default)
            &&& f.hint is None ==> v.get("hint"@) is None
            &&& f.hint matches Some(h) ==> v.get("hint"@) == Some(JsonView::Str(h))
            &&& f.min is None ==> v.get("min"@) is None
            &&& f.min matches Some(n) ==> (v.get("min"@) matches Some(j) && j.as_i64() == Some(n))
            &&& f.max is None ==> v.get("max"@) is None
            &&& f.max matches Some(n) ==> (v.get("max"@) matches Some(j) && j.as_i64() == Some(n))
            &&& f.options.len() == 0 ==> v.get("options"@) is None
            &&& f.options.len() > 0 ==> v.get("options"@) == Some(options_view(f.options))
        }),
{
    broadcast use crate::json::reading_behind_setting;

    reveal_strlit("key");
    reveal_strlit("label");
    reveal_strlit("kind");
    reveal_strlit("default");
    reveal_strlit("hint");
    reveal_strlit("min");
    reveal_strlit("max");
    reveal_strlit("options");
    assert("key"@.len() == 3 && "label"@.len() == 5 && "kind"@.len() == 4);
    assert("default"@.len() == 7 && "hint"@.len() == 4 && "min"@.len() == 3 && "max"@.len() == 3);
    assert("options"@.len() == 7);
    assert("key"@[0] == 'k');
    assert("min"@[0] == 'm');
    assert("max"@[0] == 'm');
    assert("kind"@[0] == 'k');
    assert("hint"@[0] == 'h');
    assert("default"@[0] == 'd');
    assert("options"@[0] == 'o');
    assert("min"@[1] == 'i');
    assert("max"@[1] == 'a');
    let a = with_field(Fields::empty(), "key"@, JsonView::Str(f.key));
    let a = with_field(a, "label"@, JsonView::Str(f.label));
    let a = with_field(a, "kind"@, JsonView::Str(field_kind_name(f.kind)));
    let a = with_field(a, "default"@, f.default);
    assert(field(a, "key"@) == Some(JsonView::Str(f.key)));
    assert(field(a, "label"@) == Some(JsonView::Str(f.label)));
    assert(field(a, "kind"@) == Some(JsonView::Str(field_kind_name(f.kind))));
    assert(field(a, "default"@) == Some(f.default));
    assert(field(a, "hint"@) is None && field(a, "min"@) is None);
    assert(field(a, "max"@) is None && field(a, "options"@) is None);
    let b = match f.hint {
        Some(h) => with_field(a, "hint"@, JsonView::Str(h)),
        None => a,
    };
    assert forall|k: Seq<char>| k != "hint"@ implies #[trigger] field(b, k) == field(a, k) by {}
    let c = match f.min {
        Some(n) => with_field(b, "min"@, int_view(n)),
        None => b,
    };
    assert forall|k: Seq<char>| k != "min"@ implies #[trigger] field(c, k) == field(b, k) by {}
    let d = match f.max {
        Some(n) => with_field(c, "max"@, int_view(n)),
        None => c,
    };
    assert forall|k: Seq<char>| k != "max"@ implies #[trigger] field(d, k) == field(c, k) by {}
    let e = if f.options.len() == 0 {
        d
    } else {
        with_field(d, "options"@, options_view(f.options))
    };
    assert forall|k: Seq<char>| k != "options"@ implies #[trigger] field(e, k) == field(d, k) by {}
    assert(field_json_view(f) == JsonView::Object(e));
}

/// What is handed out of a kind of widget is what the registry says of it, and
/// its fields one by one, in their order.
pub proof fn a_kind_is_handed_out_as_registered(t: TypeView)
    ensures
        ({
            let v = type_json_view(t);
            &&& v.get("kind"@) == Some(JsonView::Str(t.kind.name()))
            &&& v.get("label"@) == Some(JsonView::Str(t.label))
            &&& v.get("title"@) == Some(JsonView::Str(t.title))
            &&& v.get("icon"@) == Some(JsonView::Str(t.icon))
            &&& v.get("fields"@) matches Some(JsonView::Array(rows)) && rows.len() == t.fields.len()
                && forall|i: int|
                0 <= i < t.fields.len() ==> #[trigger] rows[i] == field_json_view(t.fields[i])
        }),
{
    broadcast use crate::json::reading_behind_setting;

    reveal_strlit("kind");
    reveal_strlit("label");
    reveal_strlit("title");
    reveal_strlit("icon");
    reveal_strlit("fields");
    assert("kind"@.len() == 4 && "label"@.len() == 5 && "title"@.len() == 5);
    assert("icon"@.len() == 4 && "fields"@.len() == 6);
    assert("kind"@[0] == 'k');
    assert("icon"@[0] == 'i');
    assert("label"@[0] == 'l');
    assert("title"@[0] == 't');
}

/// The whole registry is handed out, in its order.
pub proof fn every_kind_is_handed_out(types: Seq<TypeView>, i: int)
    requires
        0 <= i < types.len(),
    ensures
        types_view(types) matches JsonView::Array(v) && v.len() == types.len() && v[i]
            == type_json_view(types[i]),
{
}

/// A new widget bears its kind and the time in its id, and the title and the icon
/// of its kind. Without settings it has the defaults, and with some it has those,
/// brought into shape.
pub proof fn a_new_widget_is_what_was_asked_for(w: Widget, body: NewWidget, micros: nat)
    requires
        is_made(w, body, micros),
    ensures
        begins(w.id@, body.kind.name() + seq!['-']),
        parse_unsigned(w.id@.skip(body.kind.name().len() as int + 1), micros) == Some(micros),
        w.kind == body.kind,
        w.title@ == type_of(body.kind).title,
        w.icon@ == type_of(body.kind).icon,
        body.settings is Null ==> w.settings@ == default_settings(fields_of(body.kind)),
        body.settings !is Null ==> w.settings@ == coerced_settings(
            fields_of(body.kind),
            body.settings@,
        ),
{
    reveal_strlit("-");
    let head = body.kind.name() + seq!['-'];
    assert("-"@ =~= seq!['-']);
    assert(w.id@ =~= head + decimal(micros));
    assert(w.id@.subrange(0, head.len() as int) =~= head);
    assert(w.id@.skip(body.kind.name().len() as int + 1) =~= decimal(micros));
    decimal_reads_back(micros, micros);
}

/// A change leaves id, kind and icon alone. A title that is not given, or is
/// blank, leaves the title; any other is trimmed and cut to sixty characters.
/// Settings that are not given are kept, and others are brought into shape.
pub proof fn a_change_changes_what_was_asked_for(before: Widget, p: WidgetPatch, after: Widget)
    requires
        is_patched(before, p, after),
    ensures
        after.id == before.id && after.kind == before.kind && after.icon == before.icon,
        p.title is None ==> after.title@ == before.title@,
        p.title matches Some(t) ==> {
            &&& is_blank(t@) ==> after.title@ == before.title@
            &&& !is_blank(t@) ==> begins(trimmed(t@), after.title@) && 0 < after.title@.len() <= 60
                && (after.title@.len() == 60 || after.title@ == trimmed(t@))
        },
        p.settings is None ==> after.settings@ == before.settings@,
        p.settings matches Some(s) ==> after.settings@ == coerced_settings(
            fields_of(before.kind),
            s@,
        ),
{
    if let Some(t) = p.title {
        clipping_keeps_the_beginning(trimmed(t@), 60);
    }
}

/// What is left behind a removal keeps its order: it is what is left of the front
/// and then what is left of the back.
pub proof fn removing_keeps_the_order(a: Seq<Widget>, b: Seq<Widget>, id: Seq<char>)
    ensures
        others(a + b, id) == others(a, id) + others(b, id),
    decreases a.len(),
{
    if a.len() == 0 {
        assert(a + b =~= b);
        assert(others(a, id) + others(b, id) =~= others(b, id));
    } else {
        removing_keeps_the_order(a.drop_first(), b, id);
        assert((a + b).drop_first() =~= a.drop_first() + b);
        assert((a + b)[0] == a[0]);
        assert(seq![a[0]] + (others(a.drop_first(), id) + others(b, id)) =~= (seq![a[0]] + others(
            a.drop_first(),
            id,
        )) + others(b, id));
    }
}

/// A widget is handed out under `widget`, with the status that is given.
pub proof fn a_widget_reply_holds_the_widget(status: u16, widget: JsonView)
    ensures
        widget_reply(status, widget).status == status,
        widget_reply(status, widget).body matches Some(v) && v.get("widget"@) == Some(widget)
            && v.get("success"@) == Some(JsonView::Bool(true)),
{
    broadcast use crate::json::reading_behind_setting;

    reveal_strlit("widget");
    reveal_strlit("success");
    assert("widget"@.len() == 6 && "success"@.len() == 7);
}

/// The host is online where it reports containers, and it alone reports any;
/// another machine is online where it could be reached.
pub proof fn a_status_says_what_is_known(d: Device, reachable: bool, states: Fields)
    ensures
        ({
            let v = status_view(d, reachable, states);
            &&& v.get("id"@) == Some(JsonView::Str(d.id@))
            &&& v.get("stats"@) == Some(JsonView::Null)
            &&& d.is_host ==> v.get("online"@) == Some(JsonView::Bool(states.len() > 0)) && v.get(
                "containers"@,
            ) == Some(JsonView::Object(states))
            &&& !d.is_host ==> v.get("online"@) == Some(JsonView::Bool(reachable)) && v.get(
                "containers"@,
            ) == Some(JsonView::Object(seq![]))
        }),
{
    broadcast use crate::json::reading_behind_setting;

    reveal_strlit("id");
    reveal_strlit("stats");
    reveal_strlit("online");
    reveal_strlit("containers");
    assert("id"@.len() == 2 && "stats"@.len() == 5 && "online"@.len() == 6);
    assert("containers"@.len() == 10);
}

/// Where only the widgets differ, the settings, the machines, the bookmarks, the
/// scripts, the tasks and the onboarding are the same.
pub proof fn all_but_the_widgets_is_kept(a: Config, b: Config)
    requires
        only_widgets_differ(a, b),
    ensures
        a.settings == b.settings && a.devices == b.devices && a.links == b.links,
        a.quick_actions == b.quick_actions && a.tasks == b.tasks,
        a.onboarding_done == b.onboarding_done,
{
}

/// A count is handed out as it is.
pub proof fn a_count_is_handed_out_as_it_is(n: u64)
    ensures
        num(n).as_u64() == Some(n),
{
}

} // verus!
