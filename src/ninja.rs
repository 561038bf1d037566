//! The build description handed to the incremental executor: global
//! variables, tool rules, per-module compile steps, then link, dex and the
//! packaging steps of the chosen output.
use vstd::prelude::*;

use crate::config::{texts, SignInfo};
use crate::manifest::decimal_string;
use crate::manifest::decimal;
use crate::resolver::{join, join_path};
use crate::text::{chars_of, push_all, string_of};

verus! {

/// What the emitter needs to know of one module directory.
pub struct ModuleLayout {
    /// The module directory.
    pub dir: String,
    /// Its last path component.
    pub name: String,
    /// `.java` files under `java/`, in walk order.
    pub java_sources: Vec<String>,
    /// `.kt` files under `kotlin/`, in walk order.
    pub kotlin_sources: Vec<String>,
    /// Whether `res/` exists.
    pub has_res: bool,
}

/// What the emitter needs to know of the project and the disk.
pub struct BuildLayout {
    pub build_dir: String,
    pub cache_dir: String,
    pub target_sdk: Option<u32>,
    /// Every `unpacked/classes.jar` of the resolved artifacts that exists.
    pub classpath_jars: Vec<String>,
    pub modules: Vec<ModuleLayout>,
    /// Whether the linked resources file already exists.
    pub linked_resources_exists: bool,
    pub sign: Option<SignInfo>,
}

/// The target SDK used when none is configured.
pub const DEFAULT_TARGET_SDK: u32 = 34;

pub open spec fn nl() -> Seq<char> {
    "\n"@
}

/// The tools and rules, which do not depend on the project.
pub open spec fn rules_text() -> Seq<char> {
    "javac = javac\nkotlinc = kotlinc\naapt2 = aapt2\nd8 = d8\nzip = zip\nzipalign = zipalign\napksigner = apksigner\nbundletool = java -jar $BUNDLETOOL_JAR\n\nrule javac\n  command = $javac -d $outdir -classpath $classpath -source 1.8 -target 1.8 $in\n  description = JAVAC $in\n\nrule kotlinc\n  command = $kotlinc -d $outdir -classpath $classpath -jvm-target 1.8 $in\n  description = KOTLINC $in\n\nrule aapt2_compile\n  command = $aapt2 compile --dir $in -o $out\n  description = AAPT2 compile $in\n\nrule aapt2_link\n  command = $aapt2 link -o $out --manifest $manifest -I $android_jar --auto-add-overlay $in\n  description = AAPT2 link\n\nrule d8\n  command = $d8 --release --output $out $in\n  description = D8/R8 optimization\n\nrule package_apk\n  command = cd $builddir && $zip -r $out . && cd -\n  description = Packaging unsigned APK\n\nrule zipalign\n  command = $zipalign -f -v 4 $in $out\n  description = Aligning APK\n\nrule apksigner\n  command = $apksigner sign --ks $keystore --ks-key-alias $alias --out $out $in\n  description = Signing APK\n\nrule build_aab\n  command = $bundletool build-bundle --modules $modules_dir --output $out\n  description = Building AAB\n\n"@
}

pub open spec fn sdk_of(l: BuildLayout) -> nat {
    match l.target_sdk {
        Some(n) => n as nat,
        None => DEFAULT_TARGET_SDK as nat,
    }
}

pub open spec fn header_text(l: BuildLayout) -> Seq<char> {
    "builddir = "@ + l.build_dir@ + nl() + "cachedir = "@ + l.cache_dir@ + nl() + nl()
        + "android_jar = $ANDROID_HOME/platforms/android-"@ + decimal(sdk_of(l))
        + "/android.jar\n"@ + rules_text()
}

/// `$android_jar` followed by `:jar` for each of the first `n` jars.
pub open spec fn classpath_value(jars: Seq<Seq<char>>, n: int) -> Seq<char>
    decreases n,
{
    if n <= 0 {
        "$android_jar"@
    } else {
        classpath_value(jars, n - 1) + seq![':'] + jars[n - 1]
    }
}

/// The first `n` items separated by single spaces.
pub open spec fn spaced(items: Seq<Seq<char>>, n: int) -> Seq<char>
    decreases n,
{
    if n <= 0 {
        Seq::empty()
    } else if n == 1 {
        items[0]
    } else {
        spaced(items, n - 1) + seq![' '] + items[n - 1]
    }
}

pub open spec fn classes_dir(l: BuildLayout, m: ModuleLayout) -> Seq<char> {
    join_path(join_path(l.build_dir@, m.name@ + "_out"@), "classes"@)
}

pub open spec fn flat_res(l: BuildLayout, m: ModuleLayout) -> Seq<char> {
    join_path(l.build_dir@, m.name@ + "_flat.res"@)
}

/// A compile step of `tool` over `sources`, or nothing without sources.
pub open spec fn compile_text(target: Seq<char>, tool: Seq<char>, sources: Seq<Seq<char>>) -> Seq<
    char,
> {
    if sources.len() == 0 {
        Seq::empty()
    } else {
        "build "@ + target + ": "@ + tool + seq![' '] + spaced(sources, sources.len() as int) + nl()
            + "  classpath = $classpath\n"@ + "  outdir = "@ + target + nl() + nl()
    }
}

pub open spec fn module_text(l: BuildLayout, m: ModuleLayout) -> Seq<char> {
    compile_text(classes_dir(l, m), "javac"@, texts(m.java_sources@)) + compile_text(
        classes_dir(l, m),
        "kotlinc"@,
        texts(m.kotlin_sources@),
    ) + if m.has_res {
        "build "@ + flat_res(l, m) + ": aapt2_compile "@ + join_path(m.dir@, "res"@) + nl()
    } else {
        Seq::empty()
    }
}

pub open spec fn modules_text(l: BuildLayout, n: int) -> Seq<char>
    decreases n,
{
    if n <= 0 {
        Seq::empty()
    } else {
        modules_text(l, n - 1) + module_text(l, l.modules@[n - 1])
    }
}

/// The flat resource files of the first `n` modules that have `res/`.
pub open spec fn flats(l: BuildLayout, n: int) -> Seq<Seq<char>>
    decreases n,
{
    if n <= 0 {
        Seq::empty()
    } else if l.modules@[n - 1].has_res {
        flats(l, n - 1).push(flat_res(l, l.modules@[n - 1]))
    } else {
        flats(l, n - 1)
    }
}

pub open spec fn all_classes(l: BuildLayout) -> Seq<Seq<char>> {
    Seq::new(l.modules@.len(), |i: int| classes_dir(l, l.modules@[i]))
}

pub open spec fn linked(l: BuildLayout) -> Seq<char> {
    join_path(l.build_dir@, "linked_resources.ap_"@)
}

pub open spec fn dex_dir(l: BuildLayout) -> Seq<char> {
    join_path(l.build_dir@, "dex"@)
}

pub open spec fn link_text(l: BuildLayout) -> Seq<char> {
    let f = flats(l, l.modules@.len() as int);
    if f.len() == 0 {
        Seq::empty()
    } else {
        "build "@ + linked(l) + ": aapt2_link "@ + spaced(f, f.len() as int) + nl() + "  manifest = "@
            + join_path(l.cache_dir@, "AndroidManifest.xml"@) + nl() + nl()
    }
}

pub open spec fn dex_text(l: BuildLayout) -> Seq<char> {
    if l.modules@.len() == 0 {
        Seq::empty()
    } else {
        "build "@ + dex_dir(l) + ": d8 "@ + spaced(all_classes(l), l.modules@.len() as int) + nl()
            + nl()
    }
}

pub open spec fn unsigned_apk(l: BuildLayout) -> Seq<char> {
    join_path(l.build_dir@, "unsigned.apk"@)
}

pub open spec fn aligned_apk(l: BuildLayout) -> Seq<char> {
    join_path(l.build_dir@, "aligned.apk"@)
}

pub open spec fn signed_apk(l: BuildLayout) -> Seq<char> {
    join_path(l.build_dir@, "app.apk"@)
}

pub open spec fn package_step(l: BuildLayout) -> Seq<char> {
    "build "@ + unsigned_apk(l) + ": package_apk "@ + dex_dir(l) + nl() + (if l.linked_resources_exists {
        "  resources = "@ + linked(l) + nl()
    } else {
        Seq::empty()
    }) + nl()
}

pub open spec fn align_step(l: BuildLayout) -> Seq<char> {
    "build "@ + aligned_apk(l) + ": zipalign "@ + unsigned_apk(l) + nl() + nl()
}

pub open spec fn sign_step(l: BuildLayout) -> Seq<char> {
    "build "@ + signed_apk(l) + ": apksigner "@ + aligned_apk(l) + nl() + (match l.sign {
        Some(s) => "  keystore = "@ + s.keystore@ + nl() + "  alias = "@ + s.alias@ + nl(),
        None => Seq::empty(),
    }) + nl()
}

/// Package, align and sign, with the signed APK as the default target.
pub open spec fn apk_text(l: BuildLayout) -> Seq<char> {
    package_step(l) + align_step(l) + sign_step(l) + "default "@ + signed_apk(l) + nl()
}

pub open spec fn aab_text(l: BuildLayout) -> Seq<char> {
    let out = join_path(l.build_dir@, "app.aab"@);
    let dirs = Seq::new(l.modules@.len(), |i: int| l.modules@[i].dir@);
    "build "@ + out + ": build_aab "@ + spaced(dirs, dirs.len() as int) + nl() + "default "@ + out
        + nl()
}

/// The whole build description; `apk` selects the APK steps, otherwise the bundle.
pub open spec fn ninja_text(l: BuildLayout, apk: bool) -> Seq<char> {
    header_text(l) + "classpath = "@ + classpath_value(
        texts(l.classpath_jars@),
        l.classpath_jars@.len() as int,
    ) + nl() + nl() + modules_text(l, l.modules@.len() as int) + link_text(l) + dex_text(l) + if apk {
        apk_text(l)
    } else {
        aab_text(l)
    }
}

fn put(out: &mut Vec<char>, s: &str)
    ensures
        final(out)@ == old(out)@ + s@,
{
    push_all(out, &chars_of(s));
}

fn put_spaced(out: &mut Vec<char>, items: &Vec<String>)
    ensures
        final(out)@ == old(out)@ + spaced(texts(items@), items@.len() as int),
{
    let ghost o0 = out@;
    let mut i: usize = 0;
    while i < items.len()
        invariant
            i <= items.len(),
            out@ == o0 + spaced(texts(items@), i as int),
        decreases items.len() - i,
    {
        if i > 0 {
            out.push(' ');
        }
        push_all(out, &chars_of(&items[i]));
        assert(out@ =~= o0 + spaced(texts(items@), i + 1));
        i = i + 1;
    }
}

fn put_compile(out: &mut Vec<char>, target: &String, tool: &str, sources: &Vec<String>)
    ensures
        final(out)@ == old(out)@ + compile_text(target@, tool@, texts(sources@)),
{
    if sources.len() == 0 {
        assert(out@ =~= old(out)@ + compile_text(target@, tool@, texts(sources@)));
        return ;
    }
    let ghost o0 = out@;
    put(out, "build ");
    put(out, target);
    put(out, ": ");
    put(out, tool);
    out.push(' ');
    put_spaced(out, sources);
    put(out, "\n");
    put(out, "  classpath = $classpath\n");
    put(out, "  outdir = ");
    put(out, target);
    put(out, "\n");
    put(out, "\n");
    assert(out@ =~= o0 + compile_text(target@, tool@, texts(sources@)));
}

fn put_module(out: &mut Vec<char>, l: &BuildLayout, m: &ModuleLayout)
    ensures
        final(out)@ == old(out)@ + module_text(*l, *m),
{
    let ghost o0 = out@;
    let classes = join(&join(&l.build_dir, &string_of(&name_with(&m.name, "_out"))), "classes");
    put_compile(out, &classes, "javac", &m.java_sources);
    put_compile(out, &classes, "kotlinc", &m.kotlin_sources);
    if m.has_res {
        let flat = join(&l.build_dir, &string_of(&name_with(&m.name, "_flat.res")));
        put(out, "build ");
        put(out, &flat);
        put(out, ": aapt2_compile ");
        put(out, &join(&m.dir, "res"));
        put(out, "\n");
    }
    assert(out@ =~= o0 + module_text(*l, *m));
}

fn name_with(name: &String, suffix: &str) -> (r: Vec<char>)
    ensures
        r@ == name@ + suffix@,
{
    let mut r = chars_of(name);
    push_all(&mut r, &chars_of(suffix));
    r
}

fn flat_list(l: &BuildLayout) -> (r: Vec<String>)
    ensures
        texts(r@) == flats(*l, l.modules@.len() as int),
{
    let mut r: Vec<String> = Vec::new();
    let mut i: usize = 0;
    while i < l.modules.len()
        invariant
            i <= l.modules.len(),
            texts(r@) == flats(*l, i as int),
        decreases l.modules.len() - i,
    {
        if l.modules[i].has_res {
            let f = join(&l.build_dir, &string_of(&name_with(&l.modules[i].name, "_flat.res")));
            let ghost r0 = texts(r@);
            r.push(f);
            assert(texts(r@) =~= r0.push(flat_res(*l, l.modules@[i as int])));
        }
        i = i + 1;
    }
    r
}

fn put_classpath(out: &mut Vec<char>, jars: &Vec<String>)
    ensures
        final(out)@ == old(out)@ + classpath_value(texts(jars@), jars@.len() as int),
{
    let ghost o0 = out@;
    put(out, "$android_jar");
    let mut i: usize = 0;
    while i < jars.len()
        invariant
            i <= jars.len(),
            out@ == o0 + classpath_value(texts(jars@), i as int),
        decreases jars.len() - i,
    {
        out.push(':');
        push_all(out, &chars_of(&jars[i]));
        assert(out@ =~= o0 + classpath_value(texts(jars@), i + 1));
        i = i + 1;
    }
}

fn put_link(out: &mut Vec<char>, l: &BuildLayout)
    ensures
        final(out)@ == old(out)@ + link_text(*l),
{
    let ghost o0 = out@;
    let f = flat_list(l);
    if f.len() == 0 {
        assert(out@ =~= o0 + link_text(*l));
        return ;
    }
    put(out, "build ");
    put(out, &join(&l.build_dir, "linked_resources.ap_"));
    put(out, ": aapt2_link ");
    put_spaced(out, &f);
    put(out, "\n");
    put(out, "  manifest = ");
    put(out, &join(&l.cache_dir, "AndroidManifest.xml"));
    put(out, "\n");
    put(out, "\n");
    assert(out@ =~= o0 + link_text(*l));
}

fn put_dex(out: &mut Vec<char>, l: &BuildLayout)
    ensures
        final(out)@ == old(out)@ + dex_text(*l),
{
    let ghost o0 = out@;
    if l.modules.len() == 0 {
        assert(out@ =~= o0 + dex_text(*l));
        return ;
    }
    let mut classes: Vec<String> = Vec::new();
    let mut i: usize = 0;
    while i < l.modules.len()
        invariant
            i <= l.modules.len(),
            texts(classes@) == all_classes(*l).take(i as int),
        decreases l.modules.len() - i,
    {
        let m = &l.modules[i];
        let c = join(&join(&l.build_dir, &string_of(&name_with(&m.name, "_out"))), "classes");
        let ghost c0 = texts(classes@);
        assert(c@ == classes_dir(*l, l.modules@[i as int]));
        assert(all_classes(*l).take(i + 1) =~= all_classes(*l).take(i as int).push(c@));
        classes.push(c);
        assert(texts(classes@) =~= all_classes(*l).take(i + 1));
        i = i + 1;
    }
    assert(all_classes(*l).take(i as int) =~= all_classes(*l));
    put(out, "build ");
    put(out, &join(&l.build_dir, "dex"));
    put(out, ": d8 ");
    put_spaced(out, &classes);
    put(out, "\n");
    put(out, "\n");
    assert(out@ =~= o0 + dex_text(*l));
}

fn put_package_step(out: &mut Vec<char>, l: &BuildLayout)
    ensures
        final(out)@ == old(out)@ + package_step(*l),
{
    let ghost o0 = out@;
    put(out, "build ");
    put(out, &join(&l.build_dir, "unsigned.apk"));
    put(out, ": package_apk ");
    put(out, &join(&l.build_dir, "dex"));
    put(out, "\n");
    let ghost o1 = out@;
    if l.linked_resources_exists {
        put(out, "  resources = ");
        put(out, &join(&l.build_dir, "linked_resources.ap_"));
        put(out, "\n");
    }
    let ghost o2 = out@;
    put(out, "\n");
    assert(out@ =~= o0 + package_step(*l));
}

fn put_align_step(out: &mut Vec<char>, l: &BuildLayout)
    ensures
        final(out)@ == old(out)@ + align_step(*l),
{
    let ghost o0 = out@;
    put(out, "build ");
    put(out, &join(&l.build_dir, "aligned.apk"));
    put(out, ": zipalign ");
    put(out, &join(&l.build_dir, "unsigned.apk"));
    put(out, "\n");
    put(out, "\n");
    assert(out@ =~= o0 + align_step(*l));
}

fn put_sign_step(out: &mut Vec<char>, l: &BuildLayout)
    ensures
        final(out)@ == old(out)@ + sign_step(*l),
{
    let ghost o0 = out@;
    put(out, "build ");
    put(out, &join(&l.build_dir, "app.apk"));
    put(out, ": apksigner ");
    put(out, &join(&l.build_dir, "aligned.apk"));
    put(out, "\n");
    let ghost o1 = out@;
    match &l.sign {
        Some(s) => {
            put(out, "  keystore = ");
            put(out, &s.keystore);
            put(out, "\n");
            put(out, "  alias = ");
            put(out, &s.alias);
            put(out, "\n");
            assert(out@ =~= o1 + ("  keystore = "@ + s.keystore@ + nl() + "  alias = "@ + s.alias@ + nl()));
        },
        None => {},
    }
    let ghost o2 = out@;
    put(out, "\n");
    assert(out@ =~= o0 + sign_step(*l));
}

fn put_apk(out: &mut Vec<char>, l: &BuildLayout)
    ensures
        final(out)@ == old(out)@ + apk_text(*l),
{
    let ghost o0 = out@;
    put_package_step(out, l);
    put_align_step(out, l);
    put_sign_step(out, l);
    put(out, "default ");
    put(out, &join(&l.build_dir, "app.apk"));
    put(out, "\n");
    assert(out@ =~= o0 + apk_text(*l));
}

fn put_aab(out: &mut Vec<char>, l: &BuildLayout)
    ensures
        final(out)@ == old(out)@ + aab_text(*l),
{
    let ghost o0 = out@;
    let target = join(&l.build_dir, "app.aab");
    let mut dirs: Vec<String> = Vec::new();
    let ghost all = Seq::new(l.modules@.len(), |i: int| l.modules@[i].dir@);
    let mut i: usize = 0;
    while i < l.modules.len()
        invariant
            i <= l.modules.len(),
            all == Seq::new(l.modules@.len(), |i: int| l.modules@[i].dir@),
            texts(dirs@) == all.take(i as int),
        decreases l.modules.len() - i,
    {
        let d = l.modules[i].dir.clone();
        assert(d@ == all[i as int]);
        assert(all.take(i + 1) =~= all.take(i as int).push(d@));
        dirs.push(d);
        assert(texts(dirs@) =~= all.take(i + 1));
        i = i + 1;
    }
    assert(all.take(i as int) =~= all);
    put(out, "build ");
    put(out, &target);
    put(out, ": build_aab ");
    put_spaced(out, &dirs);
    put(out, "\n");
    put(out, "default ");
    put(out, &target);
    put(out, "\n");
    assert(out@ =~= o0 + aab_text(*l));
}

/// Writes the build description for `layout`; `output_type` `apk` selects
/// the APK steps, anything else the bundle.
pub fn generate_ninja(layout: &BuildLayout, output_type: &str) -> (r: String)
    ensures
        r@ == ninja_text(*layout, output_type@ == "apk"@),
{
    let l = layout;
    let mut out: Vec<char> = Vec::new();
    put(&mut out, "builddir = ");
    put(&mut out, &l.build_dir);
    put(&mut out, "\n");
    put(&mut out, "cachedir = ");
    put(&mut out, &l.cache_dir);
    put(&mut out, "\n");
    put(&mut out, "\n");
    put(&mut out, "android_jar = $ANDROID_HOME/platforms/android-");
    let sdk = match l.target_sdk {
        Some(n) => n,
        None => DEFAULT_TARGET_SDK,
    };
    put(&mut out, &decimal_string(sdk));
    put(&mut out, "/android.jar\n");
    put(&mut out, "javac = javac\nkotlinc = kotlinc\naapt2 = aapt2\nd8 = d8\nzip = zip\nzipalign = zipalign\napksigner = apksigner\nbundletool = java -jar $BUNDLETOOL_JAR\n\nrule javac\n  command = $javac -d $outdir -classpath $classpath -source 1.8 -target 1.8 $in\n  description = JAVAC $in\n\nrule kotlinc\n  command = $kotlinc -d $outdir -classpath $classpath -jvm-target 1.8 $in\n  description = KOTLINC $in\n\nrule aapt2_compile\n  command = $aapt2 compile --dir $in -o $out\n  description = AAPT2 compile $in\n\nrule aapt2_link\n  command = $aapt2 link -o $out --manifest $manifest -I $android_jar --auto-add-overlay $in\n  description = AAPT2 link\n\nrule d8\n  command = $d8 --release --output $out $in\n  description = D8/R8 optimization\n\nrule package_apk\n  command = cd $builddir && $zip -r $out . && cd -\n  description = Packaging unsigned APK\n\nrule zipalign\n  command = $zipalign -f -v 4 $in $out\n  description = Aligning APK\n\nrule apksigner\n  command = $apksigner sign --ks $keystore --ks-key-alias $alias --out $out $in\n  description = Signing APK\n\nrule build_aab\n  command = $bundletool build-bundle --modules $modules_dir --output $out\n  description = Building AAB\n\n");
    assert(out@ =~= header_text(*l));
    put(&mut out, "classpath = ");
    put_classpath(&mut out, &l.classpath_jars);
    put(&mut out, "\n");
    put(&mut out, "\n");
    let ghost before_modules = out@;
    let mut i: usize = 0;
    while i < l.modules.len()
        invariant
            i <= l.modules.len(),
            out@ == before_modules + modules_text(*l, i as int),
        decreases l.modules.len() - i,
    {
        put_module(&mut out, l, &l.modules[i]);
        assert(out@ =~= before_modules + modules_text(*l, i + 1));
        i = i + 1;
    }
    put_link(&mut out, l);
    put_dex(&mut out, l);
    let apk = crate::text::eq_chars(&chars_of(output_type), &chars_of("apk"));
    if apk {
        put_apk(&mut out, l);
    } else {
        put_aab(&mut out, l);
    }
    assert(out@ =~= ninja_text(*l, output_type@ == "apk"@));
    string_of(&out)
}

} // verus!
