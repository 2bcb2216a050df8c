<!DOCTYPE html>
<html lang="en">
<head>
<meta charset="UTF-8">
<meta name="viewport" content="width=device-width, initial-scale=1.0">
<title>MinimaMemosa</title>
<link rel="preconnect" href="https://fonts.googleapis.com">
<link rel="preconnect" href="https://fonts.gstatic.com" crossorigin>
<link href="https://fonts.googleapis.com/css2?family=Raleway:wght@300;400;500;600;700&display=swap" rel="stylesheet">
<script src="/static/tailwindcss.js"></script>
<script>
tailwind.config = {
darkMode: 'class',
theme: {
extend: {
fontFamily: {
sans: ['Raleway', 'ui-sans-serif', 'system-ui', '-apple-system', 'BlinkMacSystemFont', '"Segoe UI"', 'Roboto', '"Helvetica Neue"', 'Arial', '"Noto Sans"', 'sans-serif'],
mono: ['ui-monospace', 'SFMono-Regular', 'Menlo', 'Monaco', 'Consolas', '"Liberation Mono"', '"Courier New"', 'monospace'],
},
colors: {
background: 'var(--bg)',
foreground: 'var(--fg)',
card: 'var(--card)',
'card-fg': 'var(--card-fg)',
border: 'var(--border)',
muted: 'var(--muted)',
'muted-fg': 'var(--muted-fg)',
sidebar: 'var(--sidebar)',
'sidebar-fg': 'var(--sidebar-fg)',
accent: {
50: 'var(--a50)',
100: 'var(--a100)',
200: 'var(--a200)',
300: 'var(--a300)',
400: 'var(--a400)',
500: 'var(--a500)',
600: 'var(--a600)',
700: 'var(--a700)',
800: 'var(--a800)',
900: 'var(--a900)',
}
}
}
}
}
</script>
<script src="/static/htmx.min.js"></script>
<script src="/static/turndown.js"></script>
<link rel="stylesheet" href="/static/github-dark-dimmed.min.css" id="hljs-theme">
<script src="/static/highlight.min.js"></script>
<script src="/static/tiptap-bundle.min.js"></script>
<script>
if (localStorage.getItem('theme') === 'dark' || (!localStorage.getItem('theme') && window.matchMedia('(prefers-color-scheme: dark)').matches)) {
document.documentElement.classList.add('dark');
}
var ACCENT_THEMES = {
'Default': { l:[75,70,65,60,55,50,45,40,35,30], d:[30,35,40,45,50,55,60,65,70,75] },
'Rose':    { l:[350,345,340,335,330,325,320,315,310,305], d:[305,310,315,320,325,330,335,340,345,350] },
'Forest':  { l:[140,135,130,125,120,115,110,105,100,95], d:[95,100,105,110,115,120,125,130,135,140] },
'Violet':  { l:[280,275,270,265,260,255,250,245,240,235], d:[235,240,245,250,255,260,265,270,275,280] },
'Sky':     { l:[200,195,190,185,180,175,170,165,160,155], d:[155,160,165,170,175,180,185,190,195,200] },
'Ruby':    { l:[10,5,0,355,350,345,340,335,330,325], d:[325,330,335,340,345,350,355,0,5,10] }
};
var LIGHT_L = [0.95,0.90,0.82,0.72,0.62,0.55,0.48,0.42,0.35,0.28];
var LIGHT_C = [0.025,0.04,0.07,0.09,0.11,0.12,0.13,0.11,0.09,0.07];
var DARK_L = [0.18,0.23,0.30,0.40,0.50,0.58,0.66,0.73,0.81,0.89];
var DARK_C = [0.015,0.025,0.035,0.05,0.07,0.09,0.10,0.09,0.07,0.05];
var ANAMES = ['--a50','--a100','--a200','--a300','--a400','--a500','--a600','--a700','--a800','--a900'];
function applyAccentTheme(name, save) {
var t = ACCENT_THEMES[name];
if (!t) return;
var isDark = document.documentElement.classList.contains('dark');
var h = isDark ? t.d : t.l;
var L = isDark ? DARK_L : LIGHT_L;
var C = isDark ? DARK_C : LIGHT_C;
for (var i = 0; i < 10; i++) {
document.documentElement.style.setProperty(ANAMES[i], 'oklch('+L[i]+' '+C[i]+' '+h[i]+')');
}
if (save) localStorage.setItem('accent-theme', name);
}
function loadAccentTheme() {
var saved = localStorage.getItem('accent-theme');
if (saved && ACCENT_THEMES[saved]) applyAccentTheme(saved, false); else applyAccentTheme('Default', false);
}
function debounce(fn, ms) { var t; return function() { var ctx=this, args=arguments; clearTimeout(t); t=setTimeout(function(){ fn.apply(ctx, args) }, ms) } }
var debouncedFilterSidebar = debounce(function(q) { filterNotesSidebar(q) }, 80);
function toggleTheme() {
document.documentElement.classList.toggle('dark');
var isDark = document.documentElement.classList.contains('dark');
localStorage.setItem('theme', isDark ? 'dark' : 'light');
document.getElementById('hljs-theme').href = isDark 
? "/static/github-dark-dimmed.min.css" 
: "/static/github.min.css";
var saved = localStorage.getItem('accent-theme');
if (saved && ACCENT_THEMES[saved]) applyAccentTheme(saved, false); else applyAccentTheme('Default', false);
}
document.addEventListener("DOMContentLoaded", () => {
var isDark = document.documentElement.classList.contains('dark');
document.getElementById('hljs-theme').href = isDark 
? "/static/github-dark-dimmed.min.css" 
: "/static/github.min.css";
loadAccentTheme();
});
document.addEventListener('htmx:afterSwap', function(evt) {
loadAccentTheme();
document.querySelectorAll('pre code').forEach((block) => {
hljs.highlightElement(block);
});
});
document.addEventListener('htmx:beforeSend', function() {
document.getElementById('global-loader').classList.add('active');
});
document.addEventListener('htmx:afterSettle', function() {
document.getElementById('global-loader').classList.remove('active');
});
document.addEventListener('htmx:responseError', function() {
document.getElementById('global-loader').classList.remove('active');
});
document.addEventListener('htmx:sendError', function() {
document.getElementById('global-loader').classList.remove('active');
});
document.addEventListener('DOMContentLoaded', function() {
document.querySelectorAll('pre code').forEach((block) => {
hljs.highlightElement(block);
});
});
</script>
<style>
#global-loader { position: fixed; inset: 0; z-index: 99999; display: none; align-items: center; justify-content: center; background: rgba(0,0,0,0.3); backdrop-filter: blur(2px); }
#global-loader.active { display: flex; }
#global-loader svg { width: 48px; height: 48px; fill: var(--a600); }
:root {
--bg: oklch(0.972 0.004 85);
--fg: oklch(0.18 0.008 85);
--card: oklch(0.995 0.002 85);
--card-fg: oklch(0.18 0.008 85);
--border: oklch(0.89 0.006 80);
--muted: oklch(0.935 0.006 85);
--muted-fg: oklch(0.52 0.008 80);
--sidebar: oklch(0.955 0.005 85);
--sidebar-fg: oklch(0.32 0.007 85);
--a50: oklch(0.95 0.025 75);
--a100: oklch(0.9 0.04 70);
--a200: oklch(0.82 0.07 65);
--a300: oklch(0.72 0.09 60);
--a400: oklch(0.62 0.11 55);
--a500: oklch(0.55 0.12 50);
--a600: oklch(0.48 0.13 45);
--a700: oklch(0.42 0.11 40);
--a800: oklch(0.35 0.09 35);
--a900: oklch(0.28 0.07 30);
}
.dark {
--bg: oklch(0.17 0.006 85);
--fg: oklch(0.88 0.004 85);
--card: oklch(0.21 0.006 85);
--card-fg: oklch(0.88 0.004 85);
--border: oklch(0.29 0.006 80);
--muted: oklch(0.25 0.006 85);
--muted-fg: oklch(0.7 0.006 80);
--sidebar: oklch(0.14 0.006 85);
--sidebar-fg: oklch(0.75 0.006 85);
--a50: oklch(0.18 0.015 30);
--a100: oklch(0.23 0.025 35);
--a200: oklch(0.3 0.035 40);
--a300: oklch(0.4 0.05 45);
--a400: oklch(0.5 0.07 50);
--a500: oklch(0.58 0.09 55);
--a600: oklch(0.66 0.1 60);
--a700: oklch(0.73 0.09 65);
--a800: oklch(0.81 0.07 70);
--a900: oklch(0.89 0.05 75);
}
body { font-family: 'Raleway', ui-sans-serif, system-ui, -apple-system, BlinkMacSystemFont, "Segoe UI", Roboto, "Helvetica Neue", Arial, "Noto Sans", sans-serif; font-weight: 400; }
.memo-content { font-weight: 400; }
.memo-content h1 { font-size: 1.375rem; font-weight: 600; margin-bottom: 0.5rem; border-bottom: 1px solid var(--border); padding-bottom: 0.25rem; }
.memo-content h2 { font-size: 1.1875rem; font-weight: 600; margin-bottom: 0.5rem; }
.memo-content h3 { font-size: 1.0625rem; font-weight: 600; margin-bottom: 0.25rem; }
.memo-content p { margin-bottom: 0; line-height: 1.65; }
.memo-content p:last-child { margin-bottom: 0; }
.tiptap-editor p { margin-bottom: 0; line-height: 1.65; }
.tiptap-editor p:last-child { margin-bottom: 0; }
.tiptap-editor h1 { font-size: 1.375em; font-weight: 600; margin-top: 0.75rem; margin-bottom: 0.25rem; }
.tiptap-editor h2 { font-size: 1.1875em; font-weight: 600; margin-top: 0.5rem; margin-bottom: 0.25rem; }
.tiptap-editor h3 { font-size: 1.0625em; font-weight: 600; margin-top: 0.5rem; margin-bottom: 0.25rem; }
.memo-content ul, .memo-content ol { padding-left: 1.5rem; margin-bottom: 0.5rem; }
.memo-content li { list-style: disc; margin-bottom: 0.25rem; }
.memo-content ol li { list-style: decimal; }
.memo-content code { background: var(--muted); padding: 0.125rem 0.375rem; border-radius: 0.25rem; font-size: 0.8125rem; color: var(--fg); font-family: ui-monospace, SFMono-Regular, Menlo, Monaco, Consolas, monospace; }
.memo-content pre { background: var(--muted); padding: 0.75rem; border-radius: 0.5rem; overflow-x: auto; margin-bottom: 0.75rem; border: 1px solid var(--border); font-family: ui-monospace, SFMono-Regular, Menlo, Monaco, Consolas, monospace; }
.memo-content pre code { background: none; padding: 0; color: inherit; }
.memo-content blockquote { border-left: 3px solid var(--border); padding-left: 0.75rem; margin: 0.5rem 0; color: var(--muted-fg); }
.memo-content a { color: var(--a600); text-decoration: none; }
.memo-content a:hover { text-decoration: underline; }
.memo-content hr { border: none; border-top: 1px solid var(--border); margin: 0.75rem 0; }
.memo-content table { border-collapse: collapse; margin-bottom: 0.5rem; width: 100%; }
.memo-content th, .memo-content td { border: 1px solid var(--border); padding: 0.375rem 0.75rem; text-align: left; }
.memo-content th { background: var(--muted); font-weight: 600; }
.memo-content img { max-width: 100%; border-radius: 0.5rem; margin-top: 0.5rem; margin-bottom: 0.5rem; }
.memo-content ul.task-list { list-style: none; padding-left: 0; }
.memo-content li.task-list-item { display: flex; align-items: flex-start; gap: 0.375rem; }
.memo-content li.task-list-item input[type="checkbox"] { margin-top: 0.25rem; }
.avatar-initials { display: inline-flex; align-items: center; justify-content: center; width: 2rem; height: 2rem; border-radius: 9999px; font-size: 0.8125rem; font-weight: 500; flex-shrink: 0; }
.avatar-initials-sm { width: 1.5rem; height: 1.5rem; font-size: 0.6875rem; }
.auto-expand-textarea { min-height: 2.5rem; overflow: hidden; resize: none; }
.memo-editor { transition: border-color 0.15s ease; }
.memo-editor:focus-within { border-color: var(--a500); }
@keyframes shimmer {
0% { background-position: -200% 0; }
100% { background-position: 200% 0; }
}
.shimmer-bg {
background: linear-gradient(90deg, var(--muted) 25%, var(--border) 50%, var(--muted) 75%);
background-size: 200% 100%;
animation: shimmer 1.5s infinite linear;
}
.tiptap-editor[contenteditable="false"] {
pointer-events: none;
cursor: wait;
}
.tiptap-editor .ProseMirror { outline: none; white-space: pre-wrap; word-wrap: break-word; min-height: 4rem; }
.tiptap-editor .ProseMirror p { margin: 0.25rem 0; }
.tiptap-editor .ProseMirror h1 { font-size: 1.375rem; font-weight: 600; margin: 0.25rem 0; border-bottom: 1px solid var(--border); padding-bottom: 0.25rem; }
.tiptap-editor .ProseMirror h2 { font-size: 1.1875rem; font-weight: 600; margin: 0.25rem 0; }
.tiptap-editor .ProseMirror h3 { font-size: 1.0625rem; font-weight: 600; margin: 0.25rem 0; }
.tiptap-editor .ProseMirror ul, .tiptap-editor .ProseMirror ol { padding-left: 1.25rem; margin: 0.25rem 0; }
.tiptap-editor .ProseMirror li { list-style: disc; }
.tiptap-editor .ProseMirror ol li { list-style: decimal; }
.tiptap-editor .ProseMirror ul[data-type="taskList"] { list-style: none; padding-left: 0; }
.tiptap-editor .ProseMirror ul[data-type="taskList"] li { display: flex; align-items: flex-start; gap: 0.375rem; list-style: none; }
.tiptap-editor .ProseMirror ul[data-type="taskList"] li > label { display: flex; align-items: flex-start; gap: 0.375rem; flex: 1; cursor: pointer; }
.tiptap-editor .ProseMirror ul[data-type="taskList"] li > label input[type="checkbox"] { margin-top: 0.3rem; cursor: pointer; }
.tiptap-editor .ProseMirror ul[data-type="taskList"] li > label p { margin: 0; flex: 1; }
.tiptap-editor .ProseMirror code { background: var(--muted); padding: 0.125rem 0.25rem; border-radius: 0.25rem; font-size: 0.8125rem; }
.tiptap-editor .ProseMirror pre { background: var(--muted); padding: 0.5rem; border-radius: 0.375rem; margin: 0.25rem 0; }
.tiptap-editor .ProseMirror pre code { background: none; padding: 0; }
.tiptap-editor .ProseMirror blockquote { border-left: 2px solid var(--border); padding-left: 0.5rem; margin: 0.25rem 0; color: var(--muted-fg); }
.tiptap-editor .ProseMirror a { color: var(--a600); }
.tiptap-editor .ProseMirror hr { border: none; border-top: 1px solid var(--border); margin: 0.75rem 0; }
.tiptap-editor .ProseMirror table { border-collapse: collapse; margin: 0.25rem 0; width: 100%; }
.tiptap-editor .ProseMirror th, .tiptap-editor .ProseMirror td { border: 1px solid var(--border); padding: 0.25rem 0.5rem; text-align: left; }
.tiptap-editor .ProseMirror th { background: var(--muted); font-weight: 600; }
.tiptap-editor .ProseMirror img { display: inline-block; vertical-align: bottom; max-width: 100%; height: auto; border-radius: 0.5rem; margin: 0.5rem 0; cursor: text; }
.tiptap-editor .ProseMirror p:has(img) { text-align: center; }
#image-resize-menu { background: var(--card); border: 1px solid var(--border); border-radius: 0.5rem; box-shadow: 0 4px 12px rgba(0,0,0,0.15); z-index: 9999; }
#image-resize-menu button:hover { background: var(--muted); }
.tiptap-editor .ProseMirror p.is-editor-empty:first-child::before { content: attr(data-placeholder); color: var(--muted-fg); pointer-events: none; float: left; height: 0; }
.tiptap-editor[data-empty="true"]:not(:has(.ProseMirror)):before { content: attr(data-placeholder); color: var(--muted-fg); pointer-events: none; }
* { scrollbar-width: thin; scrollbar-color: color-mix(in srgb, var(--muted-fg) 45%, transparent) transparent; }
#image-modal { background: rgba(0,0,0,0.85); }
#image-modal img { max-width: 95vw; max-height: 95vh; }
/* ── Mobile Responsive ── */
/* iOS 100vh fix */
@supports (height: 100dvh) {
.h-screen, .min-h-screen { height: 100dvh; min-height: 100dvh; }
}
/* Prevent iOS input zoom */
@media (max-width: 1023px) {
input, textarea, select, .tiptap-editor .ProseMirror {
font-size: 16px !important;
}
}
/* Safe area padding for bottom nav */
.safe-area-bottom {
padding-bottom: max(0.5rem, env(safe-area-inset-bottom));
}
/* Touch optimization */
button, a { touch-action: manipulation; }
/* Smooth mobile scrolling */
@media (max-width: 1023px) {
.overflow-y-auto { -webkit-overflow-scrolling: touch; }
}
/* Slash menu mobile constraint */
#slash-menu { max-width: calc(100vw - 16px); }
/* Mobile sidebar drawer transitions */
#mobile-sidebar-drawer {
transition: transform 300ms cubic-bezier(0.4, 0, 0.2, 1);
}
</style>
</head>
<body class="bg-background text-foreground min-h-screen">
<div id="global-loader"><svg fill="white" viewBox="0 0 24 24" xmlns="http://www.w3.org/2000/svg"><rect x="1" y="6" width="2.8" height="12"><animate begin="spinner_Diec.begin+0.4s" attributeName="y" calcMode="spline" dur="0.6s" values="6;1;6" keySplines=".14,.73,.34,1;.65,.26,.82,.45"/><animate begin="spinner_Diec.begin+0.4s" attributeName="height" calcMode="spline" dur="0.6s" values="12;22;12" keySplines=".14,.73,.34,1;.65,.26,.82,.45"/></rect><rect x="5.8" y="6" width="2.8" height="12"><animate begin="spinner_Diec.begin+0.2s" attributeName="y" calcMode="spline" dur="0.6s" values="6;1;6" keySplines=".14,.73,.34,1;.65,.26,.82,.45"/><animate begin="spinner_Diec.begin+0.2s" attributeName="height" calcMode="spline" dur="0.6s" values="12;22;12" keySplines=".14,.73,.34,1;.65,.26,.82,.45"/></rect><rect x="10.6" y="6" width="2.8" height="12"><animate id="spinner_Diec" begin="0;spinner_dm8s.end-0.1s" attributeName="y" calcMode="spline" dur="0.6s" values="6;1;6" keySplines=".14,.73,.34,1;.65,.26,.82,.45"/><animate begin="0;spinner_dm8s.end-0.1s" attributeName="height" calcMode="spline" dur="0.6s" values="12;22;12" keySplines=".14,.73,.34,1;.65,.26,.82,.45"/></rect><rect x="15.4" y="6" width="2.8" height="12"><animate begin="spinner_Diec.begin+0.2s" attributeName="y" calcMode="spline" dur="0.6s" values="6;1;6" keySplines=".14,.73,.34,1;.65,.26,.82,.45"/><animate begin="spinner_Diec.begin+0.2s" attributeName="height" calcMode="spline" dur="0.6s" values="12;22;12" keySplines=".14,.73,.34,1;.65,.26,.82,.45"/></rect><rect x="20.2" y="6" width="2.8" height="12"><animate id="spinner_dm8s" begin="spinner_Diec.begin+0.4s" attributeName="y" calcMode="spline" dur="0.6s" values="6;1;6" keySplines=".14,.73,.34,1;.65,.26,.82,.45"/><animate begin="spinner_Diec.begin+0.4s" attributeName="height" calcMode="spline" dur="0.6s" values="12;22;12" keySplines=".14,.73,.34,1;.65,.26,.82,.45"/></rect></svg></div>
{% block content %}{% endblock %}
<div id="image-modal" class="fixed inset-0 z-[9999] flex items-center justify-center hidden" onclick="closeImageModal()">
<button class="absolute top-4 right-4 text-white/70 hover:text-white text-2xl leading-none w-10 h-10 flex items-center justify-center rounded-full bg-black/20 hover:bg-black/40 transition-colors">&times;</button>
<img src="" alt="Fullscreen image" class="object-contain rounded-lg shadow-2xl" onclick="event.stopPropagation()">
</div>
<div id="image-resize-menu" class="hidden fixed min-w-[130px] py-1" onclick="event.stopPropagation()">
<button type="button" onclick="setImageWidth('25%')" class="flex items-center gap-2 w-full px-3 py-1.5 text-xs text-foreground hover:bg-muted transition-colors">Quarter Width</button>
<button type="button" onclick="setImageWidth('50%')" class="flex items-center gap-2 w-full px-3 py-1.5 text-xs text-foreground hover:bg-muted transition-colors">Half Width</button>
<button type="button" onclick="setImageWidth('100%')" class="flex items-center gap-2 w-full px-3 py-1.5 text-xs text-foreground hover:bg-muted transition-colors">Full Width</button>
</div>
<!-- Share Modal -->
<div id="share-modal" class="fixed inset-0 z-[9999] flex items-center justify-center hidden" style="background:rgba(0,0,0,0.5)">
<div class="bg-card rounded-xl border border-border shadow-xl p-6 w-full max-w-sm mx-4" onclick="event.stopPropagation()">
<div class="text-center mb-4">
<div class="inline-flex items-center justify-center w-10 h-10 rounded-full bg-accent-50 dark:bg-accent-900/20 text-accent-600 dark:text-accent-400 mb-2">
<svg class="w-5 h-5" fill="none" stroke="currentColor" viewBox="0 0 24 24"><path stroke-linecap="round" stroke-linejoin="round" stroke-width="2" d="M8.684 13.342C8.886 12.938 9 12.482 9 12c0-.482-.114-.938-.316-1.342m0 2.684a3 3 0 110-2.684m0 2.684l6.632 3.316m-6.632-6l6.632-3.316m0 0a3 3 0 105.367-2.684 3 3 0 00-5.367 2.684zm0 9.316a3 3 0 105.368 2.684 3 3 0 00-5.368-2.684z"/></svg>
</div>
<h3 class="text-lg font-semibold text-foreground" id="share-modal-title">Share Note</h3>
<p class="text-xs text-muted-fg mt-1" id="share-modal-desc">Copy the link below to share this note.</p>
</div>
<div class="space-y-3">
<div class="flex items-center gap-2 p-2 bg-muted rounded-lg border border-border">
<span class="text-xs text-muted-fg truncate" id="share-link-display"></span>
<button onclick="copyShareLink()" class="ml-auto shrink-0 px-2 py-1 text-xs font-medium text-white bg-accent-600 hover:bg-accent-700 rounded transition-colors">Copy</button>
</div>
</div>
<div class="flex mt-4">
<button onclick="closeShareModal()"
class="w-full px-3 py-2 text-sm font-medium text-muted-fg hover:text-foreground bg-muted hover:bg-muted/80 rounded-lg transition-colors">Close</button>
</div>
</div>
</div>
<!-- Visibility Password Modal -->
<div id="vis-password-modal" class="fixed inset-0 z-[9999] flex items-center justify-center hidden" style="background:rgba(0,0,0,0.5)">
<div class="bg-card rounded-xl border border-border shadow-xl p-6 w-full max-w-sm mx-4" onclick="event.stopPropagation()">
<div class="text-center mb-4">
<div class="inline-flex items-center justify-center w-10 h-10 rounded-full bg-amber-50 dark:bg-amber-900/20 text-amber-600 dark:text-amber-400 mb-2">
<svg class="w-5 h-5" fill="none" stroke="currentColor" viewBox="0 0 24 24"><rect x="3" y="11" width="18" height="11" rx="2" stroke-width="2"/><path d="M7 11V7a5 5 0 0110 0v4" stroke-width="2"/></svg>
</div>
<h3 class="text-lg font-semibold text-foreground" id="vis-pwd-title">Password Required</h3>
<p class="text-xs text-muted-fg mt-1" id="vis-pwd-desc">Set a password to protect this note.</p>
</div>
<div class="space-y-3">
<div>
<label for="vis-pwd-input" class="block text-sm font-medium mb-1">Password</label>
<input type="password" id="vis-pwd-input" placeholder="Enter a password..."
class="w-full px-3 py-2 border border-border rounded-lg bg-card focus:outline-none focus:ring-2 focus:ring-accent-500 text-sm">
</div>
<div>
<label for="vis-pwd-confirm" class="block text-sm font-medium mb-1">Confirm Password</label>
<input type="password" id="vis-pwd-confirm" placeholder="Confirm password..."
class="w-full px-3 py-2 border border-border rounded-lg bg-card focus:outline-none focus:ring-2 focus:ring-accent-500 text-sm">
</div>
<p id="vis-pwd-error" class="text-red-500 text-xs hidden"></p>
</div>
<div class="flex gap-2 mt-4">
<button onclick="closeVisPwdModal()"
class="flex-1 px-3 py-2 text-sm font-medium text-muted-fg hover:text-foreground bg-muted hover:bg-muted/80 rounded-lg transition-colors">Cancel</button>
<button onclick="confirmVisPwd()"
class="flex-1 px-3 py-2 text-sm font-medium text-white bg-accent-600 hover:bg-accent-700 rounded-lg transition-colors">Set Password</button>
</div>
</div>
</div>
<!-- Settings Modal -->
<div id="settings-modal" class="fixed inset-0 z-[9999] flex items-center justify-center hidden" style="background:rgba(0,0,0,0.5)">
<div class="bg-card rounded-xl border border-border shadow-xl p-6 w-full max-w-sm mx-4" onclick="event.stopPropagation()">
<div class="flex items-center justify-between mb-4">
<h3 class="text-lg font-semibold text-foreground">Settings</h3>
<button onclick="closeSettings()" class="p-1 rounded-md text-muted-fg hover:text-foreground hover:bg-muted transition-colors">
<svg class="w-5 h-5" fill="none" stroke="currentColor" viewBox="0 0 24 24"><path stroke-linecap="round" stroke-linejoin="round" stroke-width="2" d="M6 18L18 6M6 6l12 12"/></svg>
</button>
</div>
<p class="text-xs text-muted-fg mb-3">Choose an accent color theme</p>
<div id="settings-theme-list" class="space-y-1"></div>
<div class="flex gap-2 mt-4">
<button onclick="closeSettings()" class="flex-1 px-3 py-2 text-sm font-medium text-muted-fg hover:text-foreground bg-muted hover:bg-muted/80 rounded-lg transition-colors">Cancel</button>
<button onclick="saveTheme()" class="flex-1 px-3 py-2 text-sm font-medium text-white bg-accent-600 hover:bg-accent-700 rounded-lg transition-colors">Save</button>
</div>
</div>
</div>
<!-- Toast -->
<div id="toast" class="fixed bottom-6 left-1/2 -translate-x-1/2 z-[9999] px-4 py-2.5 rounded-lg shadow-lg text-sm font-medium transition-all duration-300 opacity-0 translate-y-2 hidden">
</div>
<script>
function showToast(msg, type) {
var t = document.getElementById('toast');
t.textContent = msg;
t.className = 'fixed bottom-6 left-1/2 -translate-x-1/2 z-[9999] px-4 py-2.5 rounded-lg shadow-lg text-sm font-medium transition-all duration-300 opacity-0 translate-y-2 ';
if (type === 'error') {
t.classList.add('bg-red-600', 'text-white');
} else if (type === 'success') {
t.classList.add('bg-green-600', 'text-white');
} else {
t.classList.add('bg-card', 'dark:bg-card', 'text-foreground', 'dark:text-foreground');
}
t.classList.remove('hidden', 'opacity-0', 'translate-y-2');
// force reflow
void t.offsetWidth;
t.classList.add('opacity-100', 'translate-y-0');
setTimeout(function() { t.classList.remove('opacity-100', 'translate-y-0'); t.classList.add('opacity-0', 'translate-y-2'); }, 2500);
}
var shareNoteId = null;
function shareNote(id, visibility) {
shareNoteId = id;
if (visibility === 'public' || visibility === 'protected') {
var url = window.location.origin + '/share/' + id;
navigator.clipboard.writeText(url).then(function() {
showToast('Share link copied to clipboard!', 'success');
}).catch(function() {
showToast('Failed to copy link', 'error');
});
} else {
showToast('Set visibility to Public or Protected in edit to share', 'error');
}
}
function closeShareModal() {
document.getElementById('share-modal').classList.add('hidden');
shareNoteId = null;
}
function copyShareLink() {
var url = window.location.origin + '/share/' + shareNoteId;
closeShareModal();
navigator.clipboard.writeText(url).then(function() {
showToast('Share link copied to clipboard!', 'success');
}).catch(function() {
showToast('Share link: ' + url, '');
});
}
/* ── Visibility Password Modal ── */
var visPwdCallback = null;
function showVisPwdModal(isEdit) {
if (isEdit) {
document.getElementById('vis-pwd-title').textContent = 'Update Password';
document.getElementById('vis-pwd-desc').textContent = 'Enter a new password or leave empty to keep the current one.';
} else {
document.getElementById('vis-pwd-title').textContent = 'Password Required';
document.getElementById('vis-pwd-desc').textContent = 'Set a password to protect this note.';
}
document.getElementById('vis-pwd-input').value = '';
document.getElementById('vis-pwd-confirm').value = '';
document.getElementById('vis-pwd-error').classList.add('hidden');
document.getElementById('vis-password-modal').classList.remove('hidden');
document.getElementById('vis-pwd-input').focus();
}
function closeVisPwdModal() {
document.getElementById('vis-password-modal').classList.add('hidden');
visPwdCallback = null;
}
function confirmVisPwd() {
var pwd = document.getElementById('vis-pwd-input').value;
var confirm = document.getElementById('vis-pwd-confirm').value;
var errEl = document.getElementById('vis-pwd-error');
if (pwd && pwd.length < 4) {
errEl.textContent = 'Password must be at least 4 characters';
errEl.classList.remove('hidden');
return;
}
if (pwd !== confirm) {
errEl.textContent = 'Passwords do not match';
errEl.classList.remove('hidden');
return;
}
errEl.classList.add('hidden');
if (visPwdCallback) visPwdCallback(pwd);
closeVisPwdModal();
}
function filterNotesSidebar(q) {
var container = document.getElementById('notes-list-container');
if (!container) return;
var items = container.querySelectorAll('[data-note-id]');
var lower = q.toLowerCase().trim();
var anyVisible = false;
items.forEach(function(item) {
var search = (item.getAttribute('data-search') || item.getAttribute('data-title') || item.textContent || '').toLowerCase();
var match = !lower || search.indexOf(lower) >= 0;
item.style.display = match ? '' : 'none';
if (match) anyVisible = true;
});
var emptyMsg = container.querySelector('.sidebar-empty-msg');
if (!lower) { if (emptyMsg) emptyMsg.remove(); return; }
if (!anyVisible) {
if (!container.querySelector('.sidebar-empty-msg')) {
var msg = document.createElement('p');
msg.className = 'sidebar-empty-msg text-xs text-muted-fg p-3 text-center';
msg.textContent = 'No matching notes.';
container.appendChild(msg);
}
} else {
var msg = container.querySelector('.sidebar-empty-msg');
if (msg) msg.remove();
}
}
/* ── Settings Modal ── */
function openSettings() { document.getElementById('settings-modal').classList.remove('hidden'); renderThemeOptions(); }
function closeSettings() { document.getElementById('settings-modal').classList.add('hidden'); }
var _selectedCalendarDate = '';
/* ── Mobile Sidebar Drawer ── */
function toggleMobileSidebar() {
var overlay = document.getElementById('mobile-sidebar-overlay');
var drawer  = document.getElementById('mobile-sidebar-drawer');
var content = document.getElementById('mobile-sidebar-content');
if (!overlay || !drawer) return;
var isOpen = !overlay.classList.contains('hidden');
if (isOpen) {
closeMobileSidebar();
} else {
var isResources = window.location.pathname === '/app/resources';
var titleEl = document.getElementById('mobile-drawer-title');
if (titleEl) titleEl.textContent = isResources ? 'Resources' : 'Notes';
if (content) {
var url = isResources ? '/resources-feed?offset=0' : '/unified-sidebar';
htmx.ajax('GET', url, {target: '#mobile-sidebar-content', swap: 'innerHTML'});
}
overlay.classList.remove('hidden');
drawer.classList.remove('-translate-x-full');
drawer.classList.add('translate-x-0');
}
}
function closeMobileSidebar() {
var overlay = document.getElementById('mobile-sidebar-overlay');
var drawer  = document.getElementById('mobile-sidebar-drawer');
if (overlay) overlay.classList.add('hidden');
if (drawer) {
drawer.classList.remove('translate-x-0');
drawer.classList.add('-translate-x-full');
}
}
function themeSwatchHtml(name) {
var t = ACCENT_THEMES[name];
if (!t) return '';
var h = t.l;
var html = '';
for (var i = 0; i < 10; i++) {
var c = 'oklch('+LIGHT_L[i]+' '+LIGHT_C[i]+' '+h[i]+')';
html += '<div style="background:'+c+'" class="w-4 h-4 rounded-sm"></div>';
}
return html;
}
var _selectedTheme = null;
function selectTheme(name) {
_selectedTheme = name;
document.querySelectorAll('#settings-theme-list > div').forEach(function(el) {
el.classList.remove('ring-2', 'ring-accent-500');
});
var el = document.querySelector('#settings-theme-list [data-theme="'+name+'"]');
if (el) el.classList.add('ring-2', 'ring-accent-500');
}
function saveTheme() {
if (_selectedTheme) { applyAccentTheme(_selectedTheme, true); showToast('Theme saved!', 'success'); }
closeSettings();
}
function renderThemeOptions() {
var container = document.getElementById('settings-theme-list');
if (!container) return;
var saved = localStorage.getItem('accent-theme') || 'Default';
container.innerHTML = '';
Object.keys(ACCENT_THEMES).forEach(function(name) {
var div = document.createElement('div');
div.className = 'flex items-center gap-3 p-2 rounded-lg cursor-pointer hover:bg-muted transition-colors ' + (name === saved ? 'ring-2 ring-accent-500' : '');
div.setAttribute('data-theme', name);
div.onclick = function(){ selectTheme(name) };
div.innerHTML = '<div class="flex gap-0.5">'+themeSwatchHtml(name)+'</div><span class="text-sm text-foreground">'+name+'</span>';
container.appendChild(div);
});
_selectedTheme = saved;
}
document.addEventListener('DOMContentLoaded', function() {
if (window.location.pathname === '/app/resources' && window.innerWidth < 1024) {
var content = document.getElementById('mobile-sidebar-content');
if (content) {
htmx.ajax('GET', '/resources-feed?offset=0', {target: '#mobile-sidebar-content', swap: 'innerHTML'});
}
var titleEl = document.getElementById('mobile-drawer-title');
if (titleEl) titleEl.textContent = 'Resources';
var overlay = document.getElementById('mobile-sidebar-overlay');
var drawer = document.getElementById('mobile-sidebar-drawer');
if (overlay) overlay.classList.remove('hidden');
if (drawer) {
drawer.classList.remove('-translate-x-full');
drawer.classList.add('translate-x-0');
}
}
});
</script>
<!-- Mobile Sidebar Drawer -->
<div id="mobile-sidebar-overlay" class="fixed inset-0 z-40 bg-black/50 backdrop-blur-sm hidden lg:hidden" onclick="closeMobileSidebar()"></div>
<div id="mobile-sidebar-drawer" class="fixed top-0 left-0 z-50 h-full w-[85vw] max-w-[320px] bg-sidebar border-r border-border transform -translate-x-full overflow-y-auto lg:hidden">
<!-- Sidebar content loaded dynamically -->
<div class="flex flex-col h-full">
<div class="px-4 py-3 border-b border-border flex-shrink-0 flex items-center justify-between">
<h2 class="text-xs font-semibold text-muted-fg uppercase tracking-wider" id="mobile-drawer-title">Timeline</h2>
<button onclick="closeMobileSidebar()" class="p-1 rounded-md text-muted-fg hover:text-foreground hover:bg-muted transition-colors">
<svg class="w-5 h-5" fill="none" stroke="currentColor" viewBox="0 0 24 24"><path stroke-linecap="round" stroke-linejoin="round" stroke-width="2" d="M6 18L18 6M6 6l12 12"/></svg>
</button>
</div>
<div id="mobile-sidebar-content" class="flex-1 overflow-y-auto min-h-0">
<!-- HTMX will load content here -->
</div>
</div>
</div>
</body>
</html>