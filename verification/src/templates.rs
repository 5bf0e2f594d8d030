//! Fixed text of the exported run pages, the index page and the manifest.
use vstd::prelude::*;

verus! {

/// Start of an exported run page, up to the title text.
pub const RUN_HEAD: &'static str = "<!doctype html><html lang=\"en\"><head>\n\
<meta charset=\"utf-8\">\n\
<title>";

/// From the end of the title to the heading text: the page style and the link back to the index.
pub const RUN_STYLE: &'static str = "</title>\n\
<style>\n\
body { font-family: system-ui, sans-serif; margin: 20px; background: #fafafa; color: #222; }\n\
h1 { font-size: 18px; margin: 4px 0 12px 0; }\n\
dl { display: grid; grid-template-columns: auto 1fr; gap: 2px 12px; font-size: 13px; max-width: 420px; margin: 0 0 12px 0; }\n\
dt { color: #666; }\n\
canvas { image-rendering: pixelated; image-rendering: crisp-edges; border: 1px solid #ccc; display: block; margin-top: 12px; background: white; width: 100%; max-width: 1600px; height: auto; }\n\
a.back { font-size: 13px; color: #06c; text-decoration: none; }\n\
a.back:hover { text-decoration: underline; }\n\
.controls { font-size: 13px; display: flex; gap: 12px; align-items: center; margin: 0 0 8px 0; }\n\
</style>\n\
</head><body>\n\
<p><a class=\"back\" href=\"index.html\">&lt; back to index</a></p>\n\
<h1>";

/// From the end of the heading to the job id.
pub const RUN_JOB_ID: &'static str = "</h1>\n\
<dl>\n\
<dt>job id</dt><dd>";

/// Before the rule number.
pub const RUN_RULE: &'static str = "</dd>\n\
<dt>rule</dt><dd>";

/// Before the width.
pub const RUN_WIDTH: &'static str = "</dd>\n\
<dt>width</dt><dd>";

/// Before the progress and generation count.
pub const RUN_GENERATIONS: &'static str = "</dd>\n\
<dt>generations</dt><dd>";

/// Before the boundary label.
pub const RUN_BOUNDARY: &'static str = "</dd>\n\
<dt>boundary</dt><dd>";

/// Before the status.
pub const RUN_STATUS: &'static str = "</dd>\n\
<dt>status</dt><dd>";

/// Before the export time.
pub const RUN_EXPORTED: &'static str = "</dd>\n\
<dt>exported</dt><dd>";

/// Before the preview description.
pub const RUN_PREVIEW: &'static str = "</dd>\n\
<dt>preview</dt><dd>";

/// From the end of the metadata list to the initial value of the cell-size slider.
pub const RUN_CONTROLS: &'static str = "</dd>\n\
</dl>\n\
<div class=\"controls\">\n\
<label>Cell size <input id=\"cs-range\" type=\"range\" min=\"1\" max=\"16\" value=\"";

/// From the slider to the initial value of the cell-size number box.
pub const RUN_CELL_SIZE_BOX: &'static str = "\"></label>\n\
<input id=\"cs-num\" type=\"number\" min=\"1\" max=\"64\" value=\"";

/// From the number box to the attributes of the borders checkbox.
pub const RUN_BORDERS_BOX: &'static str = "\">\n\
<label><input id=\"borders\" type=\"checkbox\"";

/// From the borders checkbox to the drawn width in the tile metadata.
pub const RUN_META: &'static str = "> Borders</label>\n\
</div>\n\
<div id=\"tiles\"></div>\n\
<script id=\"meta\" type=\"application/json\">{\"w\":";

/// The script that draws the tiles at the chosen cell size, with or without borders, and redraws them when the controls change; then the end of the page.
pub const RUN_SCRIPT: &'static str = "<script>\n\
(function(){\n\
const meta = JSON.parse(document.getElementById('meta').textContent);\n\
if (!meta || meta.w === 0 || meta.h === 0) return;\n\
const host = document.getElementById('tiles');\n\
const range = document.getElementById('cs-range');\n\
const num = document.getElementById('cs-num');\n\
const borders = document.getElementById('borders');\n\
const tiles = [];\n\
for (const tile of meta.tiles || []) {\n\
const b64 = (document.getElementById(tile.id)?.textContent || '').trim();\n\
if (!b64) continue;\n\
const tileH = Math.max(0, (tile.end || 0) - (tile.start || 0));\n\
if (tileH === 0) continue;\n\
const cv = document.createElement('canvas');\n\
cv.style.imageRendering = 'pixelated';\n\
cv.style.imageRendering = 'crisp-edges';\n\
cv.style.display = 'block';\n\
cv.style.marginTop = '0';\n\
cv.style.maxWidth = 'none';\n\
host.appendChild(cv);\n\
tiles.push({ bin: atob(b64), h: tileH, cv: cv });\n\
}\n\
function bitAt(bin, i) {\n\
return (bin.charCodeAt(i >> 3) >> (7 - (i & 7))) & 1;\n\
}\n\
function draw() {\n\
let cs = parseInt(num.value, 10);\n\
if (!(cs >= 1)) cs = 1;\n\
if (cs > 64) cs = 64;\n\
const grid = borders.checked && cs > 1;\n\
for (const t of tiles) {\n\
const cv = t.cv;\n\
cv.width = meta.w * cs;\n\
cv.height = t.h * cs;\n\
cv.style.width = (meta.w * cs) + 'px';\n\
cv.style.height = (t.h * cs) + 'px';\n\
const ctx = cv.getContext('2d');\n\
if (cs === 1) {\n\
const img = ctx.createImageData(meta.w, t.h);\n\
for (let y = 0; y < t.h; y++) {\n\
for (let x = 0; x < meta.w; x++) {\n\
const iPacked = y * meta.w + x;\n\
const p = iPacked * 4;\n\
const v = bitAt(t.bin, iPacked) ? 0 : 255;\n\
img.data[p] = v; img.data[p+1] = v; img.data[p+2] = v; img.data[p+3] = 255;\n\
}\n\
}\n\
ctx.putImageData(img, 0, 0);\n\
} else if (grid) {\n\
ctx.fillStyle = '#4d4d4d';\n\
ctx.fillRect(0, 0, cv.width, cv.height);\n\
for (let y = 0; y < t.h; y++) {\n\
for (let x = 0; x < meta.w; x++) {\n\
ctx.fillStyle = bitAt(t.bin, y * meta.w + x) ? '#000000' : '#ffffff';\n\
ctx.fillRect(x * cs + 1, y * cs + 1, cs - 1, cs - 1);\n\
}\n\
}\n\
} else {\n\
ctx.fillStyle = '#ffffff';\n\
ctx.fillRect(0, 0, cv.width, cv.height);\n\
ctx.fillStyle = '#000000';\n\
for (let y = 0; y < t.h; y++) {\n\
for (let x = 0; x < meta.w; x++) {\n\
if (bitAt(t.bin, y * meta.w + x)) ctx.fillRect(x * cs, y * cs, cs, cs);\n\
}\n\
}\n\
}\n\
}\n\
}\n\
range.addEventListener('input', () => { num.value = range.value; draw(); });\n\
num.addEventListener('input', () => {\n\
const v = parseInt(num.value, 10);\n\
if (v >= 1 && v <= 16) range.value = String(v);\n\
draw();\n\
});\n\
borders.addEventListener('change', draw);\n\
draw();\n\
if (tiles.length > 1) {\n\
const note = document.createElement('p');\n\
note.style.fontSize = '12px';\n\
note.style.color = '#555';\n\
note.textContent = `Rendered ${tiles.length} stacked canvases (full fidelity, stride 1).`;\n\
host.insertAdjacentElement('beforebegin', note);\n\
}\n\
})();\n\
</script>\n\
</body></html>\n";

/// Start of the index page, up to the run count.
pub const INDEX_HEAD: &'static str = "<!doctype html><html lang=\"en\"><head>\n\
<meta charset=\"utf-8\">\n\
<title>Cellular Automata runs</title>\n\
<style>\n\
body { font-family: system-ui, sans-serif; margin: 20px; background: #fafafa; color: #222; }\n\
h1 { font-size: 20px; margin: 0 0 10px 0; }\n\
.meta { color: #666; font-size: 13px; margin-bottom: 12px; }\n\
#q { width: 100%; max-width: 520px; padding: 8px 10px; font-size: 14px; box-sizing: border-box; }\n\
table { width: 100%; border-collapse: collapse; margin-top: 12px; background: white; }\n\
th, td { text-align: left; padding: 6px 10px; border-bottom: 1px solid #eee; font-size: 13px; }\n\
th { background: #f0f0f0; position: sticky; top: 0; }\n\
tr:hover td { background: #fafaff; }\n\
a { color: #06c; text-decoration: none; }\n\
a:hover { text-decoration: underline; }\n\
.empty { color: #888; padding: 20px 0; }\n\
</style>\n\
</head><body>\n\
<h1>Cellular Automata runs</h1>\n\
<div class=\"meta\">";

/// From the run count to the table of runs: the filter box.
pub const INDEX_FILTER: &'static str = " saved run(s). Type to filter by any column (rule, width, status, ...).</div>\n\
<input id=\"q\" placeholder=\"Filter (e.g. rule 30 running)\" autofocus>\n";

/// The script of the index page: the filter box, the live reload of the manifest that drops runs whose page is gone, the move buttons; then the end of the page.
pub const INDEX_SCRIPT: &'static str = "\n\
<script>\n\
let srcDirHandle = null;\n\
let dstDirHandle = null;\n\n\
(function(){\n\
const q = document.getElementById('q');\n\
function apply() {\n\
const terms = q.value.toLowerCase().split(/\\s+/).filter(Boolean);\n\
for (const r of document.querySelectorAll('#runs tbody tr')) {\n\
const t = r.textContent.toLowerCase();\n\
r.style.display = terms.every(w => t.includes(w)) ? '' : 'none';\n\
}\n\
}\n\
q.addEventListener('input', apply);\n\n\
function esc(s) {\n\
return s.replace(/&/g, '&amp;').replace(/</g, '&lt;').replace(/>/g, '&gt;').replace(/\"/g, '&quot;').replace(/'/g, '&#39;');\n\
}\n\
function rowHtml(f) {\n\
return '<tr data-filename=\"' + esc(f[8]) + '\"><td>' + esc(f[0]) + '</td><td>' + esc(f[1]) + '</td><td>' + esc(f[2])\n\
+ '</td><td>' + esc(f[6]) + '/' + esc(f[3]) + '</td><td>' + esc(f[4]) + '</td><td>' + esc(f[5]) + '</td><td>'\n\
+ esc(f[7]) + '</td><td><a href=\"' + esc(f[8]) + '\">open</a> | <button data-move>Move</button></td></tr>\\n';\n\
}\n\
async function stillThere(name) {\n\
try {\n\
const r = await fetch(encodeURI(name), {method: 'HEAD', cache: 'no-store'});\n\
return r.ok;\n\
} catch (e) {\n\
return true;\n\
}\n\
}\n\
async function reload() {\n\
let text;\n\
try {\n\
const r = await fetch('manifest.tsv', {cache: 'no-store'});\n\
if (!r.ok) return;\n\
text = await r.text();\n\
} catch (e) {\n\
return;\n\
}\n\
const entries = [];\n\
text.split(/\\r?\\n/).forEach((line, i) => {\n\
if (i === 0 || line.trim() === '') return;\n\
const parts = line.split('\\t');\n\
if (parts.length < 9) return;\n\
entries.push(parts.slice(0, 9));\n\
});\n\
entries.reverse();\n\
const live = [];\n\
for (const f of entries) {\n\
if (await stillThere(f[8])) live.push(f);\n\
}\n\
const count = document.querySelector('.meta');\n\
if (count) count.textContent = live.length + ' saved run(s). Type to filter by any column (rule, width, status, ...).';\n\
const old = document.getElementById('runs') || document.querySelector('.empty');\n\
if (!old) return;\n\
const holder = document.createElement('div');\n\
holder.innerHTML = live.length === 0\n\
? '<div class=\"empty\">No runs exported yet.</div>'\n\
: '<table id=\"runs\">\\n<thead><tr><th>ID</th><th>Rule</th><th>Width</th><th>Progress</th><th>Boundary</th><th>Status</th><th>Exported</th><th></th></tr></thead>\\n<tbody>\\n'\n\
+ live.map(rowHtml).join('') + '</tbody>\\n</table>';\n\
old.replaceWith(holder.firstElementChild);\n\
apply();\n\
}\n\
reload();\n\
})();\n\n\
async function ensureDirs() {\n\
if (!window.showDirectoryPicker) {\n\
alert('Move requires a Chromium browser with File System Access API.');\n\
throw new Error('no FSA');\n\
}\n\
if (!srcDirHandle) {\n\
srcDirHandle = await window.showDirectoryPicker({mode: 'readwrite'});\n\
}\n\
if (!dstDirHandle) {\n\
dstDirHandle = await window.showDirectoryPicker({mode: 'readwrite'});\n\
}\n\
}\n\n\
async function moveFile(btn) {\n\
try {\n\
await ensureDirs();\n\
const tr = btn.closest('tr');\n\
const fname = tr?.dataset?.filename;\n\
if (!fname) { alert('Missing filename'); return; }\n\
const srcFile = await srcDirHandle.getFileHandle(fname);\n\
const file = await srcFile.getFile();\n\
const dstFile = await dstDirHandle.getFileHandle(fname, {create: true});\n\
const writable = await dstFile.createWritable();\n\
await writable.write(await file.arrayBuffer());\n\
await writable.close();\n\
try { await srcDirHandle.removeEntry(fname); } catch(e) { console.warn('delete failed', e); }\n\
tr.remove();\n\
} catch (e) {\n\
console.error(e);\n\
alert('Move failed: ' + e);\n\
}\n\
}\n\n\
document.addEventListener('click', (ev) => {\n\
const target = ev.target;\n\
if (target instanceof HTMLButtonElement && target.dataset.move !== undefined) {\n\
moveFile(target);\n\
}\n\
});\n\
</script>\n\
</body></html>\n";

/// What the index shows when no run has been exported.
pub const INDEX_EMPTY: &'static str = "<div class=\"empty\">No runs exported yet.</div>";

/// Start of the table of runs, up to its rows.
pub const INDEX_TABLE_HEAD: &'static str = "<table id=\"runs\">\n\
<thead><tr><th>ID</th><th>Rule</th><th>Width</th><th>Progress</th><th>Boundary</th><th>Status</th><th>Exported</th><th></th></tr></thead>\n\
<tbody>\n";

/// End of the table of runs.
pub const INDEX_TABLE_TAIL: &'static str = "</tbody>\n\
</table>";

/// End of one row of the table of runs, after the link target.
pub const INDEX_ROW_TAIL: &'static str = "\">open</a> | <button data-move>Move</button></td></tr>\n";

/// The header line of the manifest.
pub const MANIFEST_HEADER: &'static str = "id\trule\twidth\tgenerations\tboundary\tstatus\tprogress\ttimestamp\tfilename\n";

} // verus!
