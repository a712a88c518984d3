use wavefront::Error;
use wavefront::Obj;

fn lines(ls: &[&str]) -> Vec<String> {
    ls.iter().map(|s| s.to_string()).collect()
}

fn parse(ls: &[&str]) -> Result<Obj, Error> {
    Obj::from_lines(&lines(ls))
}

#[test]
fn quad_end_to_end() {
    let model = parse(&["v 0 0 0", "v 1 0 0", "v 1 1 0", "v 0 1 0", "f 1 2 3 4"]).unwrap();
    assert_eq!(model.positions().len(), 4);
    let object = model.object("").unwrap();
    let group = object.group("").unwrap();
    let poly = group.polygon(0).unwrap();
    assert_eq!(poly.vertex_count(), 4);
    assert!(group.polygon(1).is_none());
    let tris = poly.triangles();
    assert_eq!(tris.len(), 1);
    assert_eq!(tris[0][0].position_index(), 0);
    assert_eq!(tris[0][1].position_index(), 1);
    assert_eq!(tris[0][2].position_index(), 2);
}

#[test]
fn no_object_directive_uses_empty_name() {
    let model = parse(&["v 0 0 0", "f 1"]).unwrap();
    assert!(model.object("").is_some());
    assert!(model.object("missing").is_none());
    assert_eq!(model.objects().len(), 1);
    assert_eq!(model.objects()[0].0, "");
}

#[test]
fn polygon_reachable_through_both_selected_groups() {
    let model = parse(&["g a b", "v 0 0 0", "f 1 1 1"]).unwrap();
    let object = model.object("").unwrap();
    let a = object.group("a").unwrap();
    let b = object.group("b").unwrap();
    assert_eq!(a.polygons().len(), 1);
    assert_eq!(b.polygons().len(), 1);
    assert_eq!(a.polygon(0).unwrap().vertex_count(), 3);
    assert_eq!(b.polygon(0).unwrap().vertex_count(), 3);
}

#[test]
fn vertex_indices_within_buffers() {
    let model = parse(&[
        "v 0 0 0",
        "v 1 0 0",
        "vt 0 0 0",
        "vn 0 0 1",
        "f 1/1/1 2/1/1 1/1/1",
    ])
    .unwrap();
    for tri in model.triangles() {
        for v in tri.iter() {
            assert!(v.position_index() < model.positions().len());
            if let Some(u) = v.uv_index() {
                assert!(u < model.uvs().len());
            }
            if let Some(n) = v.normal_index() {
                assert!(n < model.normals().len());
            }
        }
    }
    let poly = model.polygons()[0];
    for v in poly.vertices() {
        assert!(v.position_index() < model.positions().len());
    }
}

#[test]
fn fan_triangulation_count_and_anchor() {
    // a polygon of n vertices yields (n - 1) / 2 triangles, all anchored at
    // the polygon's first vertex
    let model = parse(&[
        "v 0 0 0",
        "v 1 0 0",
        "v 2 0 0",
        "v 3 0 0",
        "v 4 0 0",
        "v 5 0 0",
        "f 1 2 3 4 5",
        "f 1 2 3 4 5 6",
        "f 1 2",
        "f 1",
    ])
    .unwrap();
    let group = model.object("").unwrap().group("").unwrap();
    let penta = group.polygon(0).unwrap();
    assert_eq!(penta.triangles().len(), 2);
    let hexa = group.polygon(1).unwrap();
    assert_eq!(hexa.triangles().len(), 2);
    assert_eq!(group.polygon(2).unwrap().triangles().len(), 0);
    assert_eq!(group.polygon(3).unwrap().triangles().len(), 0);
    for tri in penta.triangles() {
        assert_eq!(tri[0].position_index(), penta.vertex(0).unwrap().position_index());
    }
    // triangle i holds the vertices at offsets 0, 2 i + 1 and 2 i + 2
    let tris = hexa.triangles();
    assert_eq!(tris[0][1].position_index(), 1);
    assert_eq!(tris[0][2].position_index(), 2);
    assert_eq!(tris[1][1].position_index(), 3);
    assert_eq!(tris[1][2].position_index(), 4);
}

#[test]
fn permissive_numeric_parsing_of_attributes() {
    // parsing stops at the first non-numeric token; missing values are 0
    let model = parse(&["v 1.0 abc 2.0", "vt 3e2", "vn -inf nan"]).unwrap();
    let p = &model.positions()[0];
    assert_eq!(p.x, "1.0");
    assert_eq!(p.y, "0");
    assert_eq!(p.z, "0");
    let t = &model.uvs()[0];
    assert_eq!(t.x, "3e2");
    assert_eq!(t.y, "0");
    let n = &model.normals()[0];
    assert_eq!(n.x, "-inf");
    assert_eq!(n.y, "nan");
    assert_eq!(n.z, "0");
}

#[test]
fn extra_attribute_values_are_ignored() {
    let model = parse(&["v 1 2 3 4 5"]).unwrap();
    let p = &model.positions()[0];
    assert_eq!(p.x, "1");
    assert_eq!(p.y, "2");
    assert_eq!(p.z, "3");
}

#[test]
fn negative_indices_resolve_against_current_lengths() {
    let model = parse(&["v 0 0 0", "v 1 0 0", "v 2 0 0", "f -1 -2 -3"]).unwrap();
    let poly = model.object("").unwrap().group("").unwrap().polygon(0).unwrap();
    assert_eq!(poly.vertex(0).unwrap().position_index(), 2);
    assert_eq!(poly.vertex(1).unwrap().position_index(), 1);
    assert_eq!(poly.vertex(2).unwrap().position_index(), 0);
    assert!(poly.vertex(3).is_none());
}

#[test]
fn absent_uv_and_normal() {
    let model = parse(&["v 0 0 0", "vn 0 0 1", "f 1//1 1// 1"]).unwrap();
    let poly = model.object("").unwrap().group("").unwrap().polygon(0).unwrap();
    let v0 = poly.vertex(0).unwrap();
    assert_eq!(v0.uv_index(), None);
    assert_eq!(v0.normal_index(), Some(0));
    assert_eq!(v0.normal().unwrap().z, "1");
    let v1 = poly.vertex(1).unwrap();
    assert_eq!(v1.uv_index(), None);
    assert_eq!(v1.normal_index(), None);
    assert!(v1.uv().is_none());
    let v2 = poly.vertex(2).unwrap();
    assert_eq!(v2.position_index(), 0);
    assert_eq!(v2.position().x, "0");
}

#[test]
fn objects_and_groups_are_separated() {
    let model = parse(&[
        "v 0 0 0",
        "o first",
        "g left",
        "f 1",
        "o second",
        "f 1 1",
    ])
    .unwrap();
    assert_eq!(model.objects().len(), 2);
    let first = model.object("first").unwrap();
    assert_eq!(first.group("left").unwrap().polygons().len(), 1);
    assert!(first.group("").is_none());
    let second = model.object("second").unwrap();
    assert_eq!(second.group("").unwrap().polygon(0).unwrap().vertex_count(), 2);
    assert_eq!(model.groups().len(), 2);
    assert_eq!(model.polygons().len(), 2);
}

#[test]
fn group_selection_resets_on_object_boundary() {
    let model = parse(&["v 0 0 0", "g a", "o next", "f 1"]).unwrap();
    let next = model.object("next").unwrap();
    // the selection was cleared by `o`, so the face went to the default group
    assert!(next.group("a").is_none());
    assert_eq!(next.group("").unwrap().polygons().len(), 1);
}

#[test]
fn invalid_group_names_are_dropped_not_fatal() {
    let model = parse(&["v 0 0 0", "g ok b@d also.fine", "f 1"]).unwrap();
    let object = model.object("").unwrap();
    assert!(object.group("ok").is_some());
    assert!(object.group("b@d").is_none());
    assert!(object.group("also.fine").is_some());
    assert_eq!(object.group("ok").unwrap().polygons().len(), 1);
    assert_eq!(object.group("also.fine").unwrap().polygons().len(), 1);
}

#[test]
fn empty_group_entry_exists_without_polygons() {
    let model = parse(&["v 0 0 0", "g lonely", "g other", "f 1"]).unwrap();
    let object = model.object("").unwrap();
    let lonely = model.object("").unwrap().group("lonely").unwrap();
    assert_eq!(lonely.polygons().len(), 0);
    assert_eq!(lonely.triangles().len(), 0);
    assert_eq!(object.group("other").unwrap().polygons().len(), 1);
}

#[test]
fn unknown_directives_and_blank_lines_are_ignored() {
    let model = parse(&["# comment", "", "   ", "mtllib foo.mtl", "v 0 0 0", "f 1"]).unwrap();
    assert_eq!(model.positions().len(), 1);
    assert_eq!(model.polygons().len(), 1);
}

#[test]
fn dump_reconstructs_the_model() {
    let model = parse(&["v 0 0 0", "v 1 0 0", "vt 0.5 0.5 0", "f 1/1 2/1"]).unwrap();
    let text = model.dump();
    assert_eq!(text, "v 0 0 0\nv 1 0 0\nvt 0.5 0.5 0\nf 1/1/ 2/1/\n");
}

#[test]
fn dump_names_objects_and_groups() {
    let model = parse(&["v 0 0 0", "o thing", "g part", "f 1"]).unwrap();
    let text = model.dump();
    assert_eq!(text, "v 0 0 0\no thing\ng part\nf 1//\n");
}

#[test]
fn name_validity() {
    assert!(wavefront::util::name_is_valid("Box_01.part"));
    assert!(wavefront::util::name_is_valid(""));
    assert!(!wavefront::util::name_is_valid("has space"));
    assert!(!wavefront::util::name_is_valid("dash-ed"));
    assert!(!wavefront::util::name_is_valid("b@d"));
}

#[test]
fn flattened_iteration_covers_all_objects() {
    let model = parse(&[
        "v 0 0 0",
        "v 1 0 0",
        "v 2 0 0",
        "o one",
        "f 1 2 3",
        "o two",
        "g inner",
        "f 1 2 3 1 2",
    ])
    .unwrap();
    assert_eq!(model.groups().len(), 2);
    assert_eq!(model.polygons().len(), 2);
    // one triangle from the first polygon, two from the five-vertex one
    assert_eq!(model.triangles().len(), 3);
    let one = model.object("one").unwrap();
    assert_eq!(one.polygons().len(), 1);
    assert_eq!(one.triangles().len(), 1);
    let two = model.object("two").unwrap();
    assert_eq!(two.groups().len(), 1);
    assert_eq!(two.groups()[0].0, "inner");
    assert_eq!(two.triangles().len(), 2);
}

#[test]
fn tabs_and_repeated_spaces_separate_tokens() {
    let model = parse(&["v\t1 \t 2  3", "f  1"]).unwrap();
    let p = &model.positions()[0];
    assert_eq!(p.x, "1");
    assert_eq!(p.y, "2");
    assert_eq!(p.z, "3");
    assert_eq!(model.polygons().len(), 1);
}

#[test]
fn polygon_vertices_in_winding_order() {
    let model = parse(&["v 0 0 0", "v 1 0 0", "v 2 0 0", "f 3 1 2"]).unwrap();
    let poly = model.polygons()[0];
    let vs = poly.vertices();
    assert_eq!(vs.len(), 3);
    assert_eq!(vs[0].position_index(), 2);
    assert_eq!(vs[1].position_index(), 0);
    assert_eq!(vs[2].position_index(), 1);
}

#[test]
fn dump_covers_normals_and_multiple_faces() {
    let model = parse(&["v 0 0 0", "vn 0 0 1", "f 1//1", "f 1 1"]).unwrap();
    assert_eq!(model.dump(), "v 0 0 0\nvn 0 0 1\nf 1//1\nf 1// 1//\n");
}
